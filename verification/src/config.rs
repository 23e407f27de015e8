//! The servers the bot watches, read from `SERVER_COUNT` and the
//! `SERVER_{n}_*` variables of an environment.
use vstd::prelude::*;
use crate::decimal::{
    decimal, decimal_spec, lemma_parse_bound, parse_unsigned, parse_unsigned_spec, IntErrorKind,
};
use crate::text::{owned, push_str};

verus! {

/// Variable that holds the number of servers.
pub const COUNT_VAR: &'static str = "SERVER_COUNT";

/// Start of every per-server variable name.
pub const VAR_PREFIX: &'static str = "SERVER_";

/// Between the server number and the key of a per-server variable name.
pub const VAR_SEPARATOR: &'static str = "_";

/// Key of the display name.
pub const KEY_NAME: &'static str = "NAME";

/// Key of the chat channel id.
pub const KEY_CHANNEL_ID: &'static str = "CHANNEL_ID";

/// Key of the log file path.
pub const KEY_LOG_PATH: &'static str = "LOG_PATH";

/// Key of the RCON host.
pub const KEY_RCON_HOST: &'static str = "RCON_HOST";

/// Key of the RCON port.
pub const KEY_RCON_PORT: &'static str = "RCON_PORT";

/// Key of the RCON password.
pub const KEY_RCON_PASSWORD: &'static str = "RCON_PASSWORD";

/// One watched server: its display name, the chat channel tied to it, the
/// log file to follow, and where and how to reach it over RCON.
pub struct ServerConfig {
    pub name: String,
    pub channel_id: u64,
    pub log_path: String,
    pub rcon_host: String,
    pub rcon_port: u16,
    pub rcon_password: String,
}

/// The mathematical value of a `ServerConfig`.
pub ghost struct ServerSpec {
    pub name: Seq<char>,
    pub channel_id: u64,
    pub log_path: Seq<char>,
    pub rcon_host: Seq<char>,
    pub rcon_port: u16,
    pub rcon_password: Seq<char>,
}

impl View for ServerConfig {
    type V = ServerSpec;

    open spec fn view(&self) -> ServerSpec {
        ServerSpec {
            name: self.name@,
            channel_id: self.channel_id,
            log_path: self.log_path@,
            rcon_host: self.rcon_host@,
            rcon_port: self.rcon_port,
            rcon_password: self.rcon_password@,
        }
    }
}

impl Clone for ServerConfig {
    fn clone(&self) -> (r: Self)
        ensures
            r@ == self@,
    {
        ServerConfig {
            name: self.name.clone(),
            channel_id: self.channel_id,
            log_path: self.log_path.clone(),
            rcon_host: self.rcon_host.clone(),
            rcon_port: self.rcon_port,
            rcon_password: self.rcon_password.clone(),
        }
    }
}

/// Why the server list could not be read.
#[derive(Debug)]
pub enum ConfigError {
    /// The named variable is not set (or not valid Unicode).
    Missing(String),
    /// `SERVER_COUNT` is not a number.
    InvalidCount,
    /// A channel id or port is not a number of its type.
    InvalidNumber(IntErrorKind),
}

/// The mathematical value of a `ConfigError`.
pub ghost enum ConfigErrorSpec {
    Missing(Seq<char>),
    InvalidCount,
    InvalidNumber(IntErrorKind),
}

impl View for ConfigError {
    type V = ConfigErrorSpec;

    open spec fn view(&self) -> ConfigErrorSpec {
        match self {
            ConfigError::Missing(v) => ConfigErrorSpec::Missing(v@),
            ConfigError::InvalidCount => ConfigErrorSpec::InvalidCount,
            ConfigError::InvalidNumber(k) => ConfigErrorSpec::InvalidNumber(*k),
        }
    }
}

/// Text after "missing " for a missing variable.
pub const MISSING_PREFIX: &'static str = "missing ";

/// The message for an invalid `SERVER_COUNT`.
pub const INVALID_COUNT_MESSAGE: &'static str = "invalid SERVER_COUNT";

/// The message for an empty number.
pub const EMPTY_MESSAGE: &'static str = "cannot parse integer from empty string";

/// The message for a number with a non-digit.
pub const INVALID_DIGIT_MESSAGE: &'static str = "invalid digit found in string";

/// The message for a number too large for its type.
pub const OVERFLOW_MESSAGE: &'static str = "number too large to fit in target type";

/// The text that describes an error.
pub open spec fn error_message_spec(e: ConfigErrorSpec) -> Seq<char> {
    match e {
        ConfigErrorSpec::Missing(v) => MISSING_PREFIX@ + v,
        ConfigErrorSpec::InvalidCount => INVALID_COUNT_MESSAGE@,
        ConfigErrorSpec::InvalidNumber(k) => match k {
            IntErrorKind::Empty => EMPTY_MESSAGE@,
            IntErrorKind::InvalidDigit => INVALID_DIGIT_MESSAGE@,
            IntErrorKind::PosOverflow => OVERFLOW_MESSAGE@,
        },
    }
}

impl ConfigError {
    /// The text that describes the error.
    pub fn message(&self) -> (r: String)
        ensures
            r@ == error_message_spec(self@),
    {
        match self {
            ConfigError::Missing(v) => {
                let mut r = owned(MISSING_PREFIX);
                push_str(&mut r, v.as_str());
                r
            },
            ConfigError::InvalidCount => owned(INVALID_COUNT_MESSAGE),
            ConfigError::InvalidNumber(k) => match k {
                IntErrorKind::Empty => owned(EMPTY_MESSAGE),
                IntErrorKind::InvalidDigit => owned(INVALID_DIGIT_MESSAGE),
                IntErrorKind::PosOverflow => owned(OVERFLOW_MESSAGE),
            },
        }
    }
}

/// The value of the first variable named `key` in `env`.
pub open spec fn env_get(env: Seq<(Seq<char>, Seq<char>)>, key: Seq<char>) -> Option<Seq<char>>
    decreases env.len(),
{
    if env.len() == 0 {
        None
    } else if env[0].0 == key {
        Some(env[0].1)
    } else {
        env_get(env.drop_first(), key)
    }
}

/// The name of variable `key` of server `i`: `SERVER_{i}_{key}`.
pub open spec fn var_name(i: nat, key: Seq<char>) -> Seq<char> {
    VAR_PREFIX@ + decimal_spec(i) + VAR_SEPARATOR@ + key
}

/// Variable `key` of server `i`, or the error for its absence.
pub open spec fn var_spec(env: Seq<(Seq<char>, Seq<char>)>, i: nat, key: Seq<char>) -> Result<
    Seq<char>,
    ConfigErrorSpec,
> {
    match env_get(env, var_name(i, key)) {
        Some(v) => Ok(v),
        None => Err(ConfigErrorSpec::Missing(var_name(i, key))),
    }
}

/// Variable `key` of server `i` as a number no larger than `max`.
pub open spec fn number_spec(
    env: Seq<(Seq<char>, Seq<char>)>,
    i: nat,
    key: Seq<char>,
    max: nat,
) -> Result<nat, ConfigErrorSpec> {
    match var_spec(env, i, key) {
        Err(e) => Err(e),
        Ok(v) => match parse_unsigned_spec(v, max) {
            Ok(n) => Ok(n),
            Err(k) => Err(ConfigErrorSpec::InvalidNumber(k)),
        },
    }
}

/// Server `i` as `env` describes it; the first of its variables (in the
/// order name, channel id, log path, host, port, password) that is missing
/// or not a number decides the error.
pub open spec fn server_spec(env: Seq<(Seq<char>, Seq<char>)>, i: nat) -> Result<
    ServerSpec,
    ConfigErrorSpec,
> {
    let name = var_spec(env, i, KEY_NAME@);
    let channel = number_spec(env, i, KEY_CHANNEL_ID@, u64::MAX as nat);
    let log_path = var_spec(env, i, KEY_LOG_PATH@);
    let host = var_spec(env, i, KEY_RCON_HOST@);
    let port = number_spec(env, i, KEY_RCON_PORT@, u16::MAX as nat);
    let password = var_spec(env, i, KEY_RCON_PASSWORD@);
    if name is Err {
        Err(name->Err_0)
    } else if channel is Err {
        Err(channel->Err_0)
    } else if log_path is Err {
        Err(log_path->Err_0)
    } else if host is Err {
        Err(host->Err_0)
    } else if port is Err {
        Err(port->Err_0)
    } else if password is Err {
        Err(password->Err_0)
    } else {
        Ok(
            ServerSpec {
                name: name->Ok_0,
                channel_id: channel->Ok_0 as u64,
                log_path: log_path->Ok_0,
                rcon_host: host->Ok_0,
                rcon_port: port->Ok_0 as u16,
                rcon_password: password->Ok_0,
            },
        )
    }
}

/// Servers `1..=n`, or the error of the first that cannot be read.
pub open spec fn servers_spec(env: Seq<(Seq<char>, Seq<char>)>, n: nat) -> Result<
    Seq<ServerSpec>,
    ConfigErrorSpec,
>
    decreases n,
{
    if n == 0 {
        Ok(Seq::empty())
    } else {
        match servers_spec(env, (n - 1) as nat) {
            Err(e) => Err(e),
            Ok(v) => match server_spec(env, n) {
                Ok(s) => Ok(v.push(s)),
                Err(e) => Err(e),
            },
        }
    }
}

/// The server list that `env` describes.
pub open spec fn load_all_spec(env: Seq<(Seq<char>, Seq<char>)>) -> Result<
    Seq<ServerSpec>,
    ConfigErrorSpec,
> {
    match env_get(env, COUNT_VAR@) {
        None => Err(ConfigErrorSpec::Missing(COUNT_VAR@)),
        Some(c) => match parse_unsigned_spec(c, usize::MAX as nat) {
            Err(_) => Err(ConfigErrorSpec::InvalidCount),
            Ok(n) => servers_spec(env, n),
        },
    }
}

/// The views of a list of server settings.
pub open spec fn servers_view(v: Seq<ServerConfig>) -> Seq<ServerSpec> {
    v.map_values(|c: ServerConfig| c@)
}

proof fn lemma_servers_error_persists(env: Seq<(Seq<char>, Seq<char>)>, n: nat, m: nat)
    requires
        n <= m,
        servers_spec(env, n) is Err,
    ensures
        servers_spec(env, m) == servers_spec(env, n),
    decreases m - n,
{
    if n < m {
        lemma_servers_error_persists(env, n, (m - 1) as nat);
    }
}

/// A successfully read server list has one entry per server number, in
/// order: entry `k` is server `k + 1` as its own variables describe it.
pub proof fn lemma_servers_shape(env: Seq<(Seq<char>, Seq<char>)>, n: nat)
    requires
        servers_spec(env, n) is Ok,
    ensures
        servers_spec(env, n)->Ok_0.len() == n,
        forall|k: int|
            0 <= k < n ==> server_spec(env, (k + 1) as nat) == Ok::<ServerSpec, ConfigErrorSpec>(
                #[trigger] servers_spec(env, n)->Ok_0[k],
            ),
    decreases n,
{
    if n > 0 {
        lemma_servers_shape(env, (n - 1) as nat);
        let prev = servers_spec(env, (n - 1) as nat)->Ok_0;
        let v = servers_spec(env, n)->Ok_0;
        assert forall|k: int| 0 <= k < n implies server_spec(env, (k + 1) as nat) == Ok::<
            ServerSpec,
            ConfigErrorSpec,
        >(#[trigger] v[k]) by {
            if k < n - 1 {
                assert(v[k] == prev[k]);
            }
        }
    }
}

/// The value of variable `SERVER_{i}_{key}` of `env`, written out.
pub open spec fn own_var(env: Seq<(Seq<char>, Seq<char>)>, i: nat, key: Seq<char>) -> Option<Seq<char>> {
    env_get(env, VAR_PREFIX@ + decimal_spec(i) + VAR_SEPARATOR@ + key)
}

/// Each server is read from its own variables only: when server `i` reads
/// successfully, every one of its settings is the value of its own
/// `SERVER_{i}_<KEY>` variable (the numbers parsed from them), whatever the
/// other servers' variables hold.
pub proof fn lemma_server_reads_own_variables(env: Seq<(Seq<char>, Seq<char>)>, i: nat)
    requires
        server_spec(env, i) is Ok,
    ensures
        ({
            let c = server_spec(env, i)->Ok_0;
            &&& own_var(env, i, KEY_NAME@) == Some(c.name)
            &&& own_var(env, i, KEY_CHANNEL_ID@) is Some
            &&& parse_unsigned_spec(own_var(env, i, KEY_CHANNEL_ID@).unwrap(), u64::MAX as nat)
                == Ok::<nat, IntErrorKind>(c.channel_id as nat)
            &&& own_var(env, i, KEY_LOG_PATH@) == Some(c.log_path)
            &&& own_var(env, i, KEY_RCON_HOST@) == Some(c.rcon_host)
            &&& own_var(env, i, KEY_RCON_PORT@) is Some
            &&& parse_unsigned_spec(own_var(env, i, KEY_RCON_PORT@).unwrap(), u16::MAX as nat)
                == Ok::<nat, IntErrorKind>(c.rcon_port as nat)
            &&& own_var(env, i, KEY_RCON_PASSWORD@) == Some(c.rcon_password)
        }),
{
    let c = server_spec(env, i)->Ok_0;
    let ch = number_spec(env, i, KEY_CHANNEL_ID@, u64::MAX as nat);
    let port = number_spec(env, i, KEY_RCON_PORT@, u16::MAX as nat);
    assert(ch is Ok);
    assert(port is Ok);
    assert(ch->Ok_0 <= u64::MAX) by {
        lemma_parse_bound(own_var(env, i, KEY_CHANNEL_ID@).unwrap(), u64::MAX as nat);
    }
    assert(port->Ok_0 <= u16::MAX) by {
        lemma_parse_bound(own_var(env, i, KEY_RCON_PORT@).unwrap(), u16::MAX as nat);
    }
}

/// A read server list holds exactly `SERVER_COUNT` servers, and entry `k`
/// holds the settings of variables `SERVER_{k+1}_<KEY>`: name, log path,
/// host and password are those variables' values, channel id and port the
/// numbers they hold.
pub proof fn lemma_loaded_servers_read_own_variables(env: Seq<(Seq<char>, Seq<char>)>)
    requires
        load_all_spec(env) is Ok,
    ensures
        env_get(env, COUNT_VAR@) is Some,
        parse_unsigned_spec(env_get(env, COUNT_VAR@).unwrap(), usize::MAX as nat)
            == Ok::<nat, IntErrorKind>(load_all_spec(env)->Ok_0.len()),
        forall|k: int|
            #![trigger load_all_spec(env)->Ok_0[k]]
            0 <= k < load_all_spec(env)->Ok_0.len() ==> {
                let c = load_all_spec(env)->Ok_0[k];
                let i = (k + 1) as nat;
                &&& own_var(env, i, KEY_NAME@) == Some(c.name)
                &&& parse_unsigned_spec(own_var(env, i, KEY_CHANNEL_ID@).unwrap(), u64::MAX as nat)
                    == Ok::<nat, IntErrorKind>(c.channel_id as nat)
                &&& own_var(env, i, KEY_LOG_PATH@) == Some(c.log_path)
                &&& own_var(env, i, KEY_RCON_HOST@) == Some(c.rcon_host)
                &&& parse_unsigned_spec(own_var(env, i, KEY_RCON_PORT@).unwrap(), u16::MAX as nat)
                    == Ok::<nat, IntErrorKind>(c.rcon_port as nat)
                &&& own_var(env, i, KEY_RCON_PASSWORD@) == Some(c.rcon_password)
            },
{
    let n = parse_unsigned_spec(env_get(env, COUNT_VAR@).unwrap(), usize::MAX as nat)->Ok_0;
    lemma_servers_shape(env, n);
    let v = load_all_spec(env)->Ok_0;
    assert forall|k: int| 0 <= k < v.len() implies {
        let c = #[trigger] v[k];
        let i = (k + 1) as nat;
        &&& own_var(env, i, KEY_NAME@) == Some(c.name)
        &&& parse_unsigned_spec(own_var(env, i, KEY_CHANNEL_ID@).unwrap(), u64::MAX as nat)
            == Ok::<nat, IntErrorKind>(c.channel_id as nat)
        &&& own_var(env, i, KEY_LOG_PATH@) == Some(c.log_path)
        &&& own_var(env, i, KEY_RCON_HOST@) == Some(c.rcon_host)
        &&& parse_unsigned_spec(own_var(env, i, KEY_RCON_PORT@).unwrap(), u16::MAX as nat)
            == Ok::<nat, IntErrorKind>(c.rcon_port as nat)
        &&& own_var(env, i, KEY_RCON_PASSWORD@) == Some(c.rcon_password)
    } by {
        assert(v == servers_spec(env, n)->Ok_0);
        assert(server_spec(env, (k + 1) as nat) == Ok::<ServerSpec, ConfigErrorSpec>(
            servers_spec(env, n)->Ok_0[k],
        ));
        lemma_server_reads_own_variables(env, (k + 1) as nat);
    }
}

/// The value of the first variable named `key` in `env`.
pub fn env_lookup<'a>(env: &'a [(String, String)], key: &str) -> (r: Option<&'a String>)
    ensures
        match r {
            Some(v) => env_get(env.deep_view(), key@) == Some(v@),
            None => env_get(env.deep_view(), key@) is None,
        },
{
    let mut i: usize = 0;
    assert(env.deep_view().skip(0) == env.deep_view());
    while i < env.len()
        invariant
            i <= env.len(),
            env_get(env.deep_view(), key@) == env_get(env.deep_view().skip(i as int), key@),
        decreases env.len() - i,
    {
        let ghost rest = env.deep_view().skip(i as int);
        assert(rest[0] == env.deep_view()[i as int]);
        assert(rest.drop_first() == env.deep_view().skip(i + 1));
        if crate::text::str_eq(env[i].0.as_str(), key) {
            return Some(&env[i].1);
        }
        i = i + 1;
    }
    None
}

fn var_name_exec(i: u64, key: &str) -> (r: String)
    ensures
        r@ == var_name(i as nat, key@),
{
    let mut r = owned(VAR_PREFIX);
    let d = decimal(i);
    push_str(&mut r, d.as_str());
    push_str(&mut r, VAR_SEPARATOR);
    push_str(&mut r, key);
    r
}

fn var_exec(env: &[(String, String)], i: u64, key: &str) -> (r: Result<String, ConfigError>)
    ensures
        match r {
            Ok(v) => var_spec(env.deep_view(), i as nat, key@) == Ok::<Seq<char>, ConfigErrorSpec>(
                v@,
            ),
            Err(e) => var_spec(env.deep_view(), i as nat, key@) == Err::<Seq<char>, ConfigErrorSpec>(
                e@,
            ),
        },
{
    let name = var_name_exec(i, key);
    match env_lookup(env, name.as_str()) {
        Some(v) => Ok(v.clone()),
        None => Err(ConfigError::Missing(name)),
    }
}

fn number_exec(env: &[(String, String)], i: u64, key: &str, max: u64) -> (r: Result<
    u64,
    ConfigError,
>)
    ensures
        match r {
            Ok(v) => number_spec(env.deep_view(), i as nat, key@, max as nat) == Ok::<
                nat,
                ConfigErrorSpec,
            >(v as nat),
            Err(e) => number_spec(env.deep_view(), i as nat, key@, max as nat) == Err::<
                nat,
                ConfigErrorSpec,
            >(e@),
        },
{
    let v = var_exec(env, i, key)?;
    match parse_unsigned(v.as_str(), max) {
        Ok(n) => Ok(n),
        Err(k) => Err(ConfigError::InvalidNumber(k)),
    }
}

impl ServerConfig {
    /// Reads server `i` from `env` (its `SERVER_{i}_*` variables).
    pub fn from_env(env: &[(String, String)], i: u64) -> (r: Result<ServerConfig, ConfigError>)
        ensures
            match r {
                Ok(c) => server_spec(env.deep_view(), i as nat) == Ok::<
                    ServerSpec,
                    ConfigErrorSpec,
                >(c@),
                Err(e) => server_spec(env.deep_view(), i as nat) == Err::<
                    ServerSpec,
                    ConfigErrorSpec,
                >(e@),
            },
    {
        let ghost env_v = env.deep_view();
        let name = var_exec(env, i, KEY_NAME)?;
        let channel_id = number_exec(env, i, KEY_CHANNEL_ID, u64::MAX)?;
        let log_path = var_exec(env, i, KEY_LOG_PATH)?;
        let rcon_host = var_exec(env, i, KEY_RCON_HOST)?;
        let rcon_port = number_exec(env, i, KEY_RCON_PORT, 65535)?;
        let rcon_password = var_exec(env, i, KEY_RCON_PASSWORD)?;
        Ok(
            ServerConfig {
                name,
                channel_id,
                log_path,
                rcon_host,
                rcon_port: rcon_port as u16,
                rcon_password,
            },
        )
    }

    /// Reads the list of servers from `env`: `SERVER_COUNT` servers,
    /// numbered from 1, each from its `SERVER_{n}_*` variables; the first
    /// problem met, in that order, is the error.
    pub fn load_all_from_env(env: &[(String, String)]) -> (r: Result<Vec<ServerConfig>, ConfigError>)
        ensures
            match r {
                Ok(v) => load_all_spec(env.deep_view()) == Ok::<
                    Seq<ServerSpec>,
                    ConfigErrorSpec,
                >(servers_view(v@)),
                Err(e) => load_all_spec(env.deep_view()) == Err::<
                    Seq<ServerSpec>,
                    ConfigErrorSpec,
                >(e@),
            },
    {
        let count = match env_lookup(env, COUNT_VAR) {
            None => {
                return Err(ConfigError::Missing(owned(COUNT_VAR)));
            },
            Some(c) => match parse_unsigned(c.as_str(), usize::MAX as u64) {
                Ok(n) => n,
                Err(_) => {
                    return Err(ConfigError::InvalidCount);
                },
            },
        };
        let mut servers: Vec<ServerConfig> = Vec::new();
        let mut k: u64 = 0;
        assert(servers_view(servers@) =~= Seq::<ServerSpec>::empty());
        assert(load_all_spec(env.deep_view()) == servers_spec(env.deep_view(), count as nat));
        while k < count
            invariant
                k <= count,
                load_all_spec(env.deep_view()) == servers_spec(env.deep_view(), count as nat),
                servers_spec(env.deep_view(), k as nat) == Ok::<Seq<ServerSpec>, ConfigErrorSpec>(
                    servers_view(servers@),
                ),
            decreases count - k,
        {
            k = k + 1;
            let c = match ServerConfig::from_env(env, k) {
                Ok(c) => c,
                Err(e) => {
                    proof {
                        assert(((k as nat) - 1) as nat == (k - 1) as nat);
                        assert(servers_spec(env.deep_view(), k as nat) == Err::<
                            Seq<ServerSpec>,
                            ConfigErrorSpec,
                        >(e@));
                        lemma_servers_error_persists(env.deep_view(), k as nat, count as nat);
                    }
                    return Err(e);
                },
            };
            let ghost before = servers@;
            servers.push(c);
            assert(servers_view(servers@) =~= servers_view(before).push(c@));
        }
        Ok(servers)
    }
}

} // verus!
