//! A client: where it connects to, as whom, and with which settings.
use vstd::prelude::*;

use crate::compression::Compression;
use crate::duration::Duration;
use crate::error::{Error, Result};
use crate::http_client::PoolConfig;
use crate::query::Query;
use crate::response;
use crate::settings::{self, copy_pairs, find_name, put, remove};
use crate::sql;
use crate::text::{self, chars_of, is_text};
use crate::tls::{self, copy_strings, HttpTls, TlsConfigSource, TlsTrust, TrustChange};

verus! {

/// As whom a client connects.
#[derive(Debug, PartialEq)]
pub enum Authentication {
    Credentials { user: Option<String>, password: Option<String> },
    Jwt { access_token: String },
}

/// As whom a client connects, with texts as sequences.
pub enum Identity {
    Credentials { user: Option<Seq<char>>, password: Option<Seq<char>> },
    Jwt(Seq<char>),
}

/// Who is meant.
pub open spec fn identity_of(a: Authentication) -> Identity {
    match a {
        Authentication::Credentials { user, password } => Identity::Credentials {
            user: response::opt_text(user),
            password: response::opt_text(password),
        },
        Authentication::Jwt { access_token } => Identity::Jwt(access_token@),
    }
}

fn copy_opt(s: &Option<String>) -> (r: Option<String>)
    ensures
        response::opt_text(r) == response::opt_text(*s),
{
    match s {
        Some(s) => Some(s.clone()),
        None => None,
    }
}

impl Default for Authentication {
    fn default() -> (r: Authentication)
        ensures
            identity_of(r) == (Identity::Credentials { user: None, password: None }),
    {
        Authentication::Credentials { user: None, password: None }
    }
}

impl Clone for Authentication {
    fn clone(&self) -> (r: Authentication)
        ensures
            identity_of(r) == identity_of(*self),
    {
        match self {
            Authentication::Credentials { user, password } => Authentication::Credentials {
                user: copy_opt(user),
                password: copy_opt(password),
            },
            Authentication::Jwt { access_token } => Authentication::Jwt {
                access_token: access_token.clone(),
            },
        }
    }
}

/// A product that uses this library.
#[derive(Debug)]
pub struct ProductInfo {
    pub name: String,
    pub version: String,
}

/// The products of a list, with texts as sequences.
pub open spec fn products_of(v: Seq<ProductInfo>) -> Seq<(Seq<char>, Seq<char>)> {
    Seq::new(v.len(), |i: int| (v[i].name@, v[i].version@))
}

/// How the products read in front of the default user agent: the product that was added last
/// comes first.
pub open spec fn agent_text(products: Seq<(Seq<char>, Seq<char>)>, default: Seq<char>) -> Seq<char>
    decreases products.len(),
{
    if products.len() == 0 {
        default
    } else {
        products.last().0 + "/"@ + products.last().1 + " "@ + agent_text(
            products.drop_last(),
            default,
        )
    }
}

/// A copy of a list of products.
pub fn copy_products(v: &Vec<ProductInfo>) -> (out: Vec<ProductInfo>)
    ensures
        products_of(out@) == products_of(v@),
{
    let mut out: Vec<ProductInfo> = Vec::new();
    let mut i: usize = 0;
    while i < v.len()
        invariant
            i <= v@.len(),
            products_of(out@) == products_of(v@).take(i as int),
        decreases v@.len() - i,
    {
        let ghost before = out@;
        out.push(ProductInfo { name: v[i].name.clone(), version: v[i].version.clone() });
        proof {
            let all = products_of(v@);
            assert(all.take(i + 1) =~= all.take(i as int).push(all[i as int]));
            assert(products_of(out@) =~= products_of(before).push(all[i as int]));
        }
        i += 1;
    }
    proof {
        assert(products_of(v@).take(i as int) =~= products_of(v@));
    }
    out
}

/// How an insert into a distributed table is acknowledged.
#[derive(Debug, Clone, Copy, PartialEq, Eq, Structural)]
#[non_exhaustive]
pub enum Durability {
    /// As soon as the coordinator has the data.
    Background,
    /// Once the shards have the data.
    Foreground,
    /// Once the shards have the data and the coordinator has synced it to disk.
    ForegroundFsynced,
}

impl Default for Durability {
    fn default() -> (r: Durability)
        ensures
            r == Durability::Background,
    {
        Durability::Background
    }
}

/// The settings for a way of acknowledging inserts.
pub open spec fn durable(
    s: Seq<(Seq<char>, Seq<char>)>,
    mode: Durability,
) -> Seq<(Seq<char>, Seq<char>)> {
    match mode {
        Durability::Background => s,
        Durability::Foreground => settings::with_value(s, "distributed_foreground_insert"@, "1"@),
        Durability::ForegroundFsynced => settings::with_value(
            settings::with_value(
                settings::with_value(s, "distributed_foreground_insert"@, "1"@),
                "fsync_after_insert"@,
                "1"@,
            ),
            "fsync_directories"@,
            "1"@,
        ),
    }
}

/// A list without repetitions: of equal texts the first stays.
pub open spec fn distinct(s: Seq<Seq<char>>) -> Seq<Seq<char>>
    decreases s.len(),
{
    if s.len() == 0 {
        Seq::empty()
    } else {
        let front = distinct(s.drop_last());
        if front.contains(s.last()) {
            front
        } else {
            front.push(s.last())
        }
    }
}

fn holds_text(v: &Vec<String>, s: &str) -> (r: bool)
    ensures
        r == sql::texts(v@).contains(s@),
{
    let chars = chars_of(s);
    let mut i: usize = 0;
    while i < v.len()
        invariant
            i <= v@.len(),
            chars@ == s@,
            forall|j: int| 0 <= j < i ==> sql::texts(v@)[j] != s@,
        decreases v@.len() - i,
    {
        if is_text(chars.as_slice(), v[i].as_str()) {
            proof {
                assert(sql::texts(v@)[i as int] == s@);
            }
            return true;
        }
        i += 1;
    }
    false
}

/// The version 7 form of a UUID in text: lower-case hexadecimal digits in groups of 8, 4, 4, 4
/// and 12 with hyphens between them.
pub open spec fn is_uuid_v7(s: Seq<char>) -> bool {
    &&& s.len() == 36
    &&& forall|i: int|
        0 <= i < 36 ==> (if i == 8 || i == 13 || i == 18 || i == 23 {
            #[trigger] s[i] == '-'
        } else {
            ('0' <= s[i] <= '9') || ('a' <= s[i] <= 'f')
        })
    &&& s[14] == '7'
}

/// `Uuid::now_v7` of uuid, as text. It comes from the time and from chance; what is known of
/// it is its form. It panics where the clock stands before 1970, or where the machine gives
/// no random bytes.
#[verifier::external_body]
fn fresh_query_id() -> (id: String)
    ensures
        is_uuid_v7(id@),
{
    uuid::Uuid::now_v7().to_string()
}

/// A client: where it connects to, as whom, and with which settings. A copy has the same
/// configuration; what is changed later on either does not show in the other.
#[derive(Debug)]
pub struct Client {
    pub url: String,
    pub database: Option<String>,
    pub authentication: Authentication,
    pub compression: Compression,
    /// Each role stands here once.
    pub roles: Vec<String>,
    pub settings: Vec<(String, String)>,
    pub headers: Vec<(String, String)>,
    pub products_info: Vec<ProductInfo>,
    pub validation: bool,
    /// What other clients know of tables does not apply here: this client connects to
    /// another place than the one that it was copied from.
    pub fresh_cache: bool,
    pub auto_query_id: bool,
    pub kill_on_drop: bool,
    pub pool_config: PoolConfig,
    /// The TLS configuration that was asked for.
    pub tls_source: Option<TlsConfigSource>,
    /// That configuration could be resolved.
    pub tls_resolved: bool,
    pub mocked: bool,
    /// The caller brought the HTTP client; it is never rebuilt.
    pub custom_http: bool,
}

/// The configuration of a client, with texts and lists as sequences.
#[verifier::ext_equal]
pub struct Config {
    pub url: Seq<char>,
    pub database: Option<Seq<char>>,
    pub identity: Identity,
    pub compression: Compression,
    pub roles: Seq<Seq<char>>,
    pub settings: Seq<(Seq<char>, Seq<char>)>,
    pub headers: Seq<(Seq<char>, Seq<char>)>,
    pub products: Seq<(Seq<char>, Seq<char>)>,
    pub validation: bool,
    pub fresh_cache: bool,
    pub auto_query_id: bool,
    pub kill_on_drop: bool,
    pub pool: PoolConfig,
    pub tls: Option<Option<tls::Trust>>,
    pub tls_resolved: bool,
    pub mocked: bool,
    pub custom_http: bool,
}

/// The roles of a configuration replaced by others. A role among the settings goes too.
pub open spec fn roles_replaced(c: Config, roles: Seq<Seq<char>>) -> Config {
    Config { roles: distinct(roles), settings: settings::without(c.settings, "role"@), ..c }
}

/// A configuration with one setting set.
pub open spec fn with_set(c: Config, name: Seq<char>, value: Seq<char>) -> Config {
    Config { settings: settings::with_value(c.settings, name, value), ..c }
}

/// The database and the name that a table name means. What stands in front of the first dot
/// is the database; without a dot it is that of the client, or `default`.
pub open spec fn qualified(c: Config, table: Seq<char>) -> (Seq<char>, Seq<char>) {
    match text::first_index(table, seq!['.'], 0) {
        Some(i) => (table.take(i), table.skip(i + 1)),
        None => match c.database {
            Some(d) => (d, table),
            None => ("default"@, table),
        },
    }
}

/// What an insert starts with: the table as it stands in the statement, and whether the
/// columns of the table have to be known.
#[derive(Debug)]
pub struct InsertPlan {
    pub table: String,
    pub needs_metadata: bool,
}

/// The configuration that a client starts with, with an HTTP client of the caller or not.
pub open spec fn is_default(c: Config, custom_http: bool) -> bool {
    &&& c.url == Seq::<char>::empty()
    &&& c.database is None
    &&& c.identity == (Identity::Credentials { user: None, password: None })
    &&& c.compression == Compression::Lz4
    &&& c.roles == Seq::<Seq<char>>::empty()
    &&& c.settings == Seq::<(Seq<char>, Seq<char>)>::empty()
    &&& c.headers == Seq::<(Seq<char>, Seq<char>)>::empty()
    &&& c.products == Seq::<(Seq<char>, Seq<char>)>::empty()
    &&& c.validation
    &&& c.fresh_cache
    &&& !c.auto_query_id
    &&& !c.kill_on_drop
    &&& c.pool.idle_timeout.nanos == 2_000_000_000
    &&& c.pool.max_idle_per_host is None
    &&& c.pool.tcp_keepalive.nanos == 60_000_000_000
    &&& c.tls is None
    &&& !c.tls_resolved
    &&& !c.mocked
    &&& c.custom_http == custom_http
}

impl Default for Client {
    fn default() -> (r: Client)
        ensures
            is_default(r.config(), false),
    {
        let r = Client {
            url: String::new(),
            database: None,
            authentication: Authentication::default(),
            compression: Compression::default(),
            roles: Vec::new(),
            settings: Vec::new(),
            headers: Vec::new(),
            products_info: Vec::new(),
            validation: true,
            fresh_cache: true,
            auto_query_id: false,
            kill_on_drop: false,
            pool_config: PoolConfig::default(),
            tls_source: None,
            tls_resolved: false,
            mocked: false,
            custom_http: false,
        };
        proof {
            assert(r.config().roles =~= Seq::empty());
            assert(r.config().settings =~= Seq::empty());
            assert(r.config().headers =~= Seq::empty());
            assert(r.config().products =~= Seq::empty());
        }
        r
    }
}

impl Clone for Client {
    fn clone(&self) -> (r: Client)
        ensures
            r.config() == self.config(),
    {
        let tls_source = match &self.tls_source {
            Some(TlsConfigSource::Trust(t)) => Some(TlsConfigSource::Trust(t.clone())),
            Some(TlsConfigSource::Explicit) => Some(TlsConfigSource::Explicit),
            None => None,
        };
        Client {
            url: self.url.clone(),
            database: copy_opt(&self.database),
            authentication: self.authentication.clone(),
            compression: self.compression,
            roles: copy_strings(&self.roles),
            settings: copy_pairs(&self.settings),
            headers: copy_pairs(&self.headers),
            products_info: copy_products(&self.products_info),
            validation: self.validation,
            fresh_cache: self.fresh_cache,
            auto_query_id: self.auto_query_id,
            kill_on_drop: self.kill_on_drop,
            pool_config: self.pool_config,
            tls_source,
            tls_resolved: self.tls_resolved,
            mocked: self.mocked,
            custom_http: self.custom_http,
        }
    }
}

impl Client {
    /// The configuration of this client.
    pub open spec fn config(self) -> Config {
        Config {
            url: self.url@,
            database: response::opt_text(self.database),
            identity: identity_of(self.authentication),
            compression: self.compression,
            roles: sql::texts(self.roles@),
            settings: settings::pairs(self.settings@),
            headers: settings::pairs(self.headers@),
            products: products_of(self.products_info@),
            validation: self.validation,
            fresh_cache: self.fresh_cache,
            auto_query_id: self.auto_query_id,
            kill_on_drop: self.kill_on_drop,
            pool: self.pool_config,
            tls: tls::source_trust(self.tls_source),
            tls_resolved: self.tls_resolved,
            mocked: self.mocked,
            custom_http: self.custom_http,
        }
    }

    /// A client whose HTTP client the caller brings. It is never rebuilt, so that settings of
    /// the pool have no effect on it.
    pub fn with_http_client() -> (r: Client)
        ensures
            is_default(r.config(), true),
    {
        let mut out = Client::default();
        out.custom_http = true;
        out
    }

    /// Whether a change of the pool or of the trust rebuilds the HTTP client.
    pub fn rebuilds_http_client(&self) -> (r: bool)
        ensures
            r == !self.config().custom_http,
    {
        !self.custom_http
    }

    /// Sets how long a connection that is not used is kept.
    pub fn with_pool_idle_timeout(self, d: Duration) -> (r: Client)
        ensures
            r.config() == (Config {
                pool: PoolConfig { idle_timeout: d, ..self.config().pool },
                ..self.config()
            }),
    {
        let mut out = self;
        out.pool_config.idle_timeout = d;
        out
    }

    /// Sets how many connections to one host are kept.
    pub fn with_pool_max_idle_per_host(self, n: usize) -> (r: Client)
        ensures
            r.config() == (Config {
                pool: PoolConfig { max_idle_per_host: Some(n), ..self.config().pool },
                ..self.config()
            }),
    {
        let mut out = self;
        out.pool_config.max_idle_per_host = Some(n);
        out
    }

    /// Sets how often a connection is probed.
    pub fn with_tcp_keepalive(self, d: Duration) -> (r: Client)
        ensures
            r.config() == (Config {
                pool: PoolConfig { tcp_keepalive: d, ..self.config().pool },
                ..self.config()
            }),
    {
        let mut out = self;
        out.pool_config.tcp_keepalive = d;
        out
    }

    /// Sets where to connect to. What is known of tables is forgotten. A URL that stands for a
    /// mocked server is not recognised here: see `with_url_or_mock`.
    pub fn with_url(self, url: &str) -> (r: Client)
        ensures
            r.config() == (Config { url: url@, fresh_cache: true, ..self.config() }),
    {
        let mut out = self;
        out.url = url.to_owned();
        out.fresh_cache = true;
        out
    }

    /// Sets where to connect to, where the URL may stand for a mocked server: `server` is then the
    /// URL of that server. The client connects there and does not check rows. What is known of tables
    /// is forgotten.
    pub fn with_url_or_mock(self, url: &str, server: Option<&str>) -> (r: Client)
        ensures
            (match server {
                Some(server) => r.config() == (Config {
                    url: server@,
                    mocked: true,
                    fresh_cache: true,
                    ..self.config()
                }),
                None => r.config() == (Config { url: url@, fresh_cache: true, ..self.config() }),
            }),
    {
        let out = self.with_url(url);
        match server {
            Some(server) => out.with_mock(server),
            None => out,
        }
    }

    /// Sets the database. What is known of tables is forgotten.
    pub fn with_database(self, database: &str) -> (r: Client)
        ensures
            r.config() == (Config {
                database: Some(database@),
                fresh_cache: true,
                ..self.config()
            }),
    {
        let mut out = self;
        out.database = Some(database.to_owned());
        out.fresh_cache = true;
        out
    }

    /// Notes that this client has a place of its own for what it knows of tables.
    pub fn cache_replaced(self) -> (r: Client)
        ensures
            r.config() == (Config { fresh_cache: false, ..self.config() }),
    {
        let mut out = self;
        out.fresh_cache = false;
        out
    }

    /// Sets the user. A token must not have been set.
    pub fn with_user(self, user: &str) -> (r: Client)
        requires
            self.config().identity is Credentials,
        ensures
            r.config() == (Config {
                identity: Identity::Credentials {
                    user: Some(user@),
                    password: self.config().identity->password,
                },
                ..self.config()
            }),
    {
        let mut out = self;
        let mut password: Option<String> = None;
        if let Authentication::Credentials { password: kept, .. } = &out.authentication {
            password = copy_opt(kept);
        }
        out.authentication = Authentication::Credentials { user: Some(user.to_owned()), password };
        out
    }

    /// Sets the password. A token must not have been set.
    pub fn with_password(self, password: &str) -> (r: Client)
        requires
            self.config().identity is Credentials,
        ensures
            r.config() == (Config {
                identity: Identity::Credentials {
                    user: self.config().identity->user,
                    password: Some(password@),
                },
                ..self.config()
            }),
    {
        let mut out = self;
        let mut user: Option<String> = None;
        if let Authentication::Credentials { user: kept, .. } = &out.authentication {
            user = copy_opt(kept);
        }
        out.authentication = Authentication::Credentials {
            user,
            password: Some(password.to_owned()),
        };
        out
    }

    /// Whether credentials can be set: no token has been.
    pub fn takes_credentials(&self) -> (r: bool)
        ensures
            r == (self.config().identity is Credentials),
    {
        match self.authentication {
            Authentication::Credentials { .. } => true,
            Authentication::Jwt { .. } => false,
        }
    }

    /// Whether a token can be set: neither a user nor a password has been.
    pub fn takes_token(&self) -> (r: bool)
        ensures
            r == (self.config().identity matches Identity::Credentials { user, password } ==> user
                is None && password is None),
    {
        match &self.authentication {
            Authentication::Credentials { user, password } => user.is_none() && password.is_none(),
            Authentication::Jwt { .. } => true,
        }
    }

    /// Sets the roles. They replace those that were set before, also among the settings.
    pub fn with_roles(self, roles: Vec<String>) -> (r: Client)
        ensures
            r.config() == roles_replaced(self.config(), sql::texts(roles@)),
    {
        let mut out = self;
        out.set_roles(roles);
        out
    }

    /// Goes back to the roles that the server has for the user.
    pub fn with_default_roles(self) -> (r: Client)
        ensures
            r.config() == roles_replaced(self.config(), Seq::empty()),
    {
        let mut out = self;
        out.clear_roles();
        proof {
            assert(distinct(Seq::<Seq<char>>::empty()) =~= Seq::empty());
        }
        out
    }

    /// Sets the roles of this client.
    pub fn set_roles(&mut self, roles: Vec<String>)
        ensures
            final(self).config() == roles_replaced(old(self).config(), sql::texts(roles@)),
    {
        self.clear_roles();
        let ghost cleared = self.config();
        let ghost all = sql::texts(roles@);
        let mut kept: Vec<String> = Vec::new();
        let mut i: usize = 0;
        proof {
            assert(all.take(0) =~= Seq::empty());
            assert(sql::texts(kept@) =~= distinct(all.take(0)));
        }
        while i < roles.len()
            invariant
                i <= roles@.len(),
                all == sql::texts(roles@),
                sql::texts(kept@) == distinct(all.take(i as int)),
            decreases roles@.len() - i,
        {
            proof {
                assert(all.take(i + 1).drop_last() =~= all.take(i as int));
                assert(all.take(i + 1).last() == all[i as int]);
            }
            if !holds_text(&kept, roles[i].as_str()) {
                let ghost before = kept@;
                kept.push(roles[i].clone());
                proof {
                    assert(sql::texts(kept@) =~= sql::texts(before).push(all[i as int]));
                }
            }
            i += 1;
        }
        proof {
            assert(all.take(i as int) =~= all);
        }
        self.roles = kept;
    }

    /// Removes the roles of this client, also from among the settings.
    pub fn clear_roles(&mut self)
        ensures
            final(self).config() == (Config {
                roles: Seq::empty(),
                settings: settings::without(old(self).config().settings, "role"@),
                ..old(self).config()
            }),
    {
        remove(&mut self.settings, "role");
        self.roles = Vec::new();
        proof {
            assert(sql::texts(self.roles@) =~= Seq::empty());
        }
    }

    /// Sets a token. Neither a user nor a password must have been set.
    pub fn with_access_token(self, access_token: &str) -> (r: Client)
        requires
            self.config().identity matches Identity::Credentials { user, password } ==> user is None
                && password is None,
        ensures
            r.config() == (Config { identity: Identity::Jwt(access_token@), ..self.config() }),
    {
        let mut out = self;
        out.authentication = Authentication::Jwt { access_token: access_token.to_owned() };
        out
    }

    /// Sets the compression.
    pub fn with_compression(self, compression: Compression) -> (r: Client)
        ensures
            r.config() == (Config { compression, ..self.config() }),
    {
        let mut out = self;
        out.compression = compression;
        out
    }

    /// Uses a TLS configuration that the caller built. It overrides any trust.
    pub fn with_tls_config(self) -> (r: Client)
        ensures
            r.config() == (Config { tls: Some(None), tls_resolved: true, ..self.config() }),
    {
        let mut out = self;
        out.tls_source = Some(TlsConfigSource::Explicit);
        out.tls_resolved = true;
        out
    }

    /// The trust of this client after a change, for it to be resolved.
    pub fn changed_trust(&self, change: TrustChange) -> (r: TlsTrust)
        ensures
            tls::trust_of(r) == tls::changed(tls::current(self.tls_source), change),
    {
        tls::current_trust(&self.tls_source).change(change)
    }

    /// Sets the trust, with whether it could be resolved. A trust that could not be is kept
    /// all the same, so that it is not replaced by a broader one.
    pub fn mutate_trust(self, trust: TlsTrust, resolved: bool) -> (r: Client)
        ensures
            r.config() == (Config {
                tls: Some(Some(tls::trust_of(trust))),
                tls_resolved: resolved,
                ..self.config()
            }),
    {
        let mut out = self;
        out.tls_source = Some(TlsConfigSource::Trust(trust));
        out.tls_resolved = resolved;
        out
    }

    /// Sets the trust if it could be resolved.
    pub fn try_mutate_trust(self, trust: TlsTrust, resolved: Result<()>) -> (r: Result<Client>)
        ensures
            (match resolved {
                Ok(_) => r matches Ok(c) && c.config() == (Config {
                    tls: Some(Some(tls::trust_of(trust))),
                    tls_resolved: true,
                    ..self.config()
                }),
                Err(e) => r == std::result::Result::<Client, Error>::Err(e),
            }),
    {
        match resolved {
            Ok(_) => Ok(self.mutate_trust(trust, true)),
            Err(e) => Err(e),
        }
    }

    /// The TLS configuration that connections are made with.
    pub fn http_tls_config(&self) -> (r: HttpTls)
        ensures
            r == tls::chosen(self.config().tls, self.config().tls_resolved),
    {
        if self.tls_resolved {
            HttpTls::Resolved
        } else if self.tls_source.is_some() {
            HttpTls::FailClosed
        } else {
            HttpTls::Default
        }
    }

    /// Sets a setting that goes with all queries.
    pub fn with_option(self, name: &str, value: &str) -> (r: Client)
        ensures
            r.config() == with_set(self.config(), name@, value@),
    {
        self.with_setting(name, value)
    }

    /// Sets a setting that goes with all queries.
    pub fn with_setting(self, name: &str, value: &str) -> (r: Client)
        ensures
            r.config() == with_set(self.config(), name@, value@),
    {
        let mut out = self;
        put(&mut out.settings, name, value);
        out
    }

    /// Sets a header that goes with all queries.
    pub fn with_header(self, name: &str, value: &str) -> (r: Client)
        ensures
            r.config() == (Config {
                headers: settings::with_value(self.config().headers, name@, value@),
                ..self.config()
            }),
    {
        let mut out = self;
        put(&mut out.headers, name, value);
        out
    }

    /// Adds a product to the user agent.
    pub fn with_product_info(self, product_name: &str, product_version: &str) -> (r: Client)
        ensures
            r.config() == (Config {
                products: self.config().products.push((product_name@, product_version@)),
                ..self.config()
            }),
    {
        let mut out = self;
        let ghost before = out.products_info@;
        out.products_info.push(
            ProductInfo { name: product_name.to_owned(), version: product_version.to_owned() },
        );
        proof {
            assert(products_of(out.products_info@) =~= products_of(before).push(
                (product_name@, product_version@),
            ));
        }
        out
    }

    /// The user agent of this client.
    pub fn user_agent(&self, default: &str) -> (out: String)
        ensures
            out@ == agent_text(self.config().products, default@),
    {
        let mut out = String::new();
        let ghost all = self.config().products;
        let mut i: usize = self.products_info.len();
        proof {
            assert(all.take(i as int) =~= all);
            assert(out@ + agent_text(all.take(i as int), default@) =~= agent_text(all, default@));
        }
        while i > 0
            invariant
                i <= self.products_info@.len(),
                all == products_of(self.products_info@),
                out@ + agent_text(all.take(i as int), default@) == agent_text(all, default@),
            decreases i,
        {
            proof {
                assert(all.take(i as int).drop_last() =~= all.take(i - 1));
                assert(all.take(i as int).last() == all[i - 1]);
            }
            let ghost before = out@;
            let product = &self.products_info[i - 1];
            out.push_str(product.name.as_str());
            out.push_str("/");
            out.push_str(product.version.as_str());
            out.push_str(" ");
            proof {
                assert(out@ + agent_text(all.take(i - 1), default@) =~= before + agent_text(
                    all.take(i as int),
                    default@,
                ));
            }
            i -= 1;
        }
        out.push_str(default);
        out
    }

    /// Sets a setting, and gives back the value that it had.
    pub fn set_option(&mut self, name: &str, value: &str) -> (r: Option<String>)
        ensures
            final(self).config() == with_set(old(self).config(), name@, value@),
            response::opt_text(r) == settings::value_of(old(self).config().settings, name@),
    {
        self.set_setting(name, value)
    }

    /// Sets a setting, and gives back the value that it had.
    pub fn set_setting(&mut self, name: &str, value: &str) -> (r: Option<String>)
        ensures
            final(self).config() == with_set(old(self).config(), name@, value@),
            response::opt_text(r) == settings::value_of(old(self).config().settings, name@),
    {
        let before = settings::get(&self.settings, name);
        put(&mut self.settings, name, value);
        before
    }

    /// The value of a setting.
    pub fn get_option(&self, name: &str) -> (r: Option<&str>)
        ensures
            (match r {
                Some(v) => settings::value_of(self.config().settings, name@) == Some(v@),
                None => settings::value_of(self.config().settings, name@) is None,
            }),
    {
        self.get_setting(name)
    }

    /// The value of a setting.
    pub fn get_setting(&self, name: &str) -> (r: Option<&str>)
        ensures
            (match r {
                Some(v) => settings::value_of(self.config().settings, name@) == Some(v@),
                None => settings::value_of(self.config().settings, name@) is None,
            }),
    {
        match find_name(&self.settings, name) {
            Some(i) => Some(self.settings[i].1.as_str()),
            None => None,
        }
    }

    /// Starts an insert. The table name is quoted as one identifier.
    pub fn insert(&self, table: &str) -> (r: InsertPlan)
        ensures
            r.table@ == sql::quoted_identifier(table@),
            r.needs_metadata == (self.config().validation && !self.config().mocked),
    {
        let quoted = sql::identifier(table);
        self.insert_unescaped(quoted.as_str())
    }

    /// Starts an insert. The table name stands as it is given.
    pub fn insert_unescaped(&self, raw_table_name: &str) -> (r: InsertPlan)
        ensures
            r.table@ == raw_table_name@,
            r.needs_metadata == (self.config().validation && !self.config().mocked),
    {
        InsertPlan { table: raw_table_name.to_owned(), needs_metadata: self.get_validation() }
    }

    /// Starts an insert in Native format, for which the columns always have to be known.
    pub fn insert_native(&self, table: &str) -> (r: InsertPlan)
        ensures
            r.table@ == sql::quoted_identifier(table@),
            r.needs_metadata,
    {
        InsertPlan { table: sql::identifier(table), needs_metadata: true }
    }

    /// Starts a query. Where this client gives its queries ids, and no id is set, the query
    /// gets a fresh one.
    pub fn query(&self, template: &str) -> (r: Query)
        ensures
            !r.idempotent,
            r.sql.model() == crate::sql_builder::Sql::InProgress(
                crate::sql_builder::template(template@),
            ),
            self.starts_with(r.client.config()),
    {
        let plain = Query::new(self, template);
        if self.auto_query_id && self.get_setting("query_id").is_none() {
            let id = fresh_query_id();
            plain.with_query_id(id.as_str())
        } else {
            plain
        }
    }

    /// A query gets a fresh id: ids are wanted, and none is set.
    pub open spec fn wants_query_id(self) -> bool {
        self.auto_query_id && settings::value_of(self.config().settings, "query_id"@) is None
    }

    /// The configuration that a query of this client starts with: that of the client, with a
    /// fresh id where the query gets one.
    pub open spec fn starts_with(self, config: Config) -> bool {
        if self.wants_query_id() {
            exists|id: Seq<char>|
                is_uuid_v7(id) && config == #[trigger] with_set(self.config(), "query_id"@, id)
        } else {
            config == self.config()
        }
    }

    /// A query of this client whose result is given up is killed on the server.
    pub fn with_kill_on_drop(self) -> (r: Client)
        ensures
            r.config() == (Config { kill_on_drop: true, ..self.config() }),
    {
        let mut out = self;
        out.kill_on_drop = true;
        out
    }

    /// What is needed to kill a query of this client: a client, and the id of the query.
    /// Nothing where queries are not killed or have no id.
    pub fn kill_on_drop_handle(&self) -> (r: Option<(Client, String)>)
        ensures
            (match r {
                Some((client, id)) => self.config().kill_on_drop && client.config()
                    == self.config() && settings::value_of(self.config().settings, "query_id"@)
                    == Some(id@),
                None => !self.config().kill_on_drop || settings::value_of(
                    self.config().settings,
                    "query_id"@,
                ) is None,
            }),
    {
        if !self.kill_on_drop {
            return None;
        }
        match settings::get(&self.settings, "query_id") {
            Some(id) => Some((self.clone(), id)),
            None => None,
        }
    }

    /// Every query gets an id.
    pub fn with_auto_query_id(self) -> (r: Client)
        ensures
            r.config() == (Config { auto_query_id: true, ..self.config() }),
    {
        let mut out = self;
        out.auto_query_id = true;
        out
    }

    /// The query that kills another one and waits until that is done.
    pub fn kill_query(&self, query_id: &str) -> (r: Query)
        ensures
            !r.idempotent,
            r.sql.model() == crate::sql_builder::with_arg(
                crate::sql_builder::Sql::InProgress(
                    crate::sql_builder::template("KILL QUERY WHERE query_id = ? SYNC"@),
                ),
                Ok(sql::quoted_literal(query_id@)),
            ),
            self.starts_with(r.client.config()),
    {
        self.query("KILL QUERY WHERE query_id = ? SYNC").bind(Ok(sql::literal(query_id)))
    }

    /// The database and the name that a table name means.
    pub fn qualified_name(&self, table: &str) -> (r: (String, String))
        ensures
            (r.0@, r.1@) == qualified(self.config(), table@),
    {
        let chars = chars_of(table);
        let len: usize = chars.len();
        let dot: [char; 1] = ['.'];
        proof {
            assert(dot@ =~= seq!['.']);
        }
        match text::find(chars.as_slice(), &dot) {
            Some(i) => {
                let database = text::string_between(chars.as_slice(), 0, i);
                let name = text::string_between(chars.as_slice(), i + 1, len);
                proof {
                    assert(database@ =~= table@.take(i as int));
                    assert(name@ =~= table@.skip(i + 1));
                }
                (database, name)
            },
            None => match &self.database {
                Some(d) => (d.clone(), table.to_owned()),
                None => ("default".to_owned(), table.to_owned()),
            },
        }
    }

    /// The query for the engine of a table.
    pub fn table_engine(&self, table: &str) -> (r: Query)
        ensures
            !r.idempotent,
            r.sql.model() == crate::sql_builder::with_arg(
                crate::sql_builder::with_arg(
                    crate::sql_builder::Sql::InProgress(
                        crate::sql_builder::template(
                            "SELECT engine FROM system.tables WHERE database = ? AND name = ? LIMIT 1"@,
                        ),
                    ),
                    Ok(sql::quoted_literal(qualified(self.config(), table@).0)),
                ),
                Ok(sql::quoted_literal(qualified(self.config(), table@).1)),
            ),
            self.starts_with(r.client.config()),
    {
        let (database, name) = self.qualified_name(table);
        self.query(
            "SELECT engine FROM system.tables WHERE database = ? AND name = ? LIMIT 1",
        ).bind(Ok(sql::literal(database.as_str()))).bind(Ok(sql::literal(name.as_str())))
    }

    /// Sets how inserts into distributed tables are acknowledged.
    pub fn with_durability(self, mode: Durability) -> (r: Client)
        ensures
            r.config() == (Config {
                settings: durable(self.config().settings, mode),
                ..self.config()
            }),
    {
        match mode {
            Durability::Background => self,
            Durability::Foreground => self.with_setting("distributed_foreground_insert", "1"),
            Durability::ForegroundFsynced => self.with_setting(
                "distributed_foreground_insert",
                "1",
            ).with_setting("fsync_after_insert", "1").with_setting("fsync_directories", "1"),
        }
    }

    /// The query that tests whether the server answers.
    pub fn ping(&self) -> (r: Query)
        ensures
            !r.idempotent,
            r.sql.model() == crate::sql_builder::Sql::InProgress(
                crate::sql_builder::template("SELECT 1"@),
            ),
            self.starts_with(r.client.config()),
    {
        self.query("SELECT 1")
    }

    /// Whether a table with this engine fans out to others.
    pub fn is_distributed_table(engine: &str) -> (r: bool)
        ensures
            r == (engine@ == "Distributed"@),
    {
        let chars = chars_of(engine);
        is_text(chars.as_slice(), "Distributed")
    }

    /// Whether rows are checked against the columns of the table.
    pub fn with_validation(self, enabled: bool) -> (r: Client)
        ensures
            r.config() == (Config { validation: enabled, ..self.config() }),
    {
        let mut out = self;
        out.validation = enabled;
        out
    }

    /// Whether rows are checked against the columns of the table. Never with a mocked server.
    pub fn get_validation(&self) -> (r: bool)
        ensures
            r == (self.config().validation && !self.config().mocked),
    {
        self.validation && !self.mocked
    }

    /// Connects to a mocked server.
    pub fn with_mock(self, url: &str) -> (r: Client)
        ensures
            r.config() == (Config { url: url@, mocked: true, ..self.config() }),
    {
        let mut out = self;
        out.url = url.to_owned();
        out.mocked = true;
        out
    }

    /// The query for the columns of a table. The table name stands as it is given.
    pub fn describe_table(&self, raw_table_name: &str) -> (r: Query)
        ensures
            !r.idempotent,
            r.sql.model() == crate::sql_builder::Sql::InProgress(
                crate::sql_builder::template("DESCRIBE TABLE "@ + raw_table_name@),
            ),
            exists|start: Config|
                self.starts_with(start) && r.client.config() == #[trigger] with_set(
                    start,
                    "describe_include_subcolumns"@,
                    "0"@,
                ),
    {
        let statement = row_insert_metadata_query(raw_table_name);
        self.query(statement.as_str()).with_setting("describe_include_subcolumns", "0")
    }
}

/// The statement for the columns of a table.
pub fn row_insert_metadata_query(raw_table: &str) -> (out: String)
    ensures
        out@ == "DESCRIBE TABLE "@ + raw_table@,
{
    let mut out = "DESCRIBE TABLE ".to_owned();
    out.push_str(raw_table);
    out
}

} // verus!
