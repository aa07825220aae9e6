use clickhouse::client::{row_insert_metadata_query, Authentication, Client, Durability};
use clickhouse::compression::Compression;
use clickhouse::duration::Duration;
use clickhouse::error::Error;
use clickhouse::metadata::{
    store_insert_metadata, DescribedColumn, InsertMetadata, InsertMetadataCache,
};
use clickhouse::tls::{HttpTls, TlsConfigSource, TrustChange};

#[test]
fn it_can_use_credentials_auth() {
    assert_eq!(
        Client::default().with_user("bob").with_password("secret").authentication,
        Authentication::Credentials {
            user: Some("bob".into()),
            password: Some("secret".into()),
        }
    );
}

#[test]
fn it_can_use_credentials_auth_user_only() {
    assert_eq!(
        Client::default().with_user("alice").authentication,
        Authentication::Credentials { user: Some("alice".into()), password: None }
    );
}

#[test]
fn it_can_use_credentials_auth_password_only() {
    assert_eq!(
        Client::default().with_password("secret").authentication,
        Authentication::Credentials { user: None, password: Some("secret".into()) }
    );
}

#[test]
fn it_can_override_credentials_auth() {
    assert_eq!(
        Client::default()
            .with_user("bob")
            .with_password("secret")
            .with_user("alice")
            .with_password("something_else")
            .authentication,
        Authentication::Credentials {
            user: Some("alice".into()),
            password: Some("something_else".into()),
        }
    );
}

#[test]
fn it_can_use_jwt_auth() {
    assert_eq!(
        Client::default().with_access_token("my_jwt").authentication,
        Authentication::Jwt { access_token: "my_jwt".into() }
    );
}

#[test]
fn it_can_override_jwt_auth() {
    assert_eq!(
        Client::default()
            .with_access_token("my_jwt")
            .with_access_token("my_jwt_2")
            .authentication,
        Authentication::Jwt { access_token: "my_jwt_2".into() }
    );
}

#[test]
fn tokens_and_credentials_exclude_each_other() {
    assert!(Client::default().takes_token());
    assert!(!Client::default().with_user("bob").takes_token());
    assert!(!Client::default().with_password("secret").takes_token());
    assert!(Client::default().with_access_token("t").takes_token());
    assert!(!Client::default().with_access_token("t").takes_credentials());
    assert!(Client::default().takes_credentials());
}

#[test]
fn it_sets_validation_mode() {
    let client = Client::default();
    assert!(client.validation);
    let client = client.with_validation(false);
    assert!(!client.validation);
    let client = client.with_validation(true);
    assert!(client.validation);
    assert!(client.get_validation());
    assert!(!client.with_mock("http://localhost").get_validation());
}

#[test]
fn it_does_follow_previous_configuration() {
    let client = Client::default().with_setting("async_insert", "1");
    assert_eq!(client.settings, client.clone().settings);
}

#[test]
fn it_does_not_follow_future_configuration() {
    let client = Client::default();
    let client_clone = client.clone();
    let client = client.with_setting("async_insert", "1");
    assert_ne!(client.settings, client_clone.settings);
}

#[test]
fn it_gets_and_sets_settings() {
    let mut client = Client::default();

    assert_eq!(client.set_setting("foo", "foo"), None);
    assert_eq!(client.set_setting("bar", "bar"), None);

    assert_eq!(client.get_setting("foo"), Some("foo"));
    assert_eq!(client.get_setting("bar"), Some("bar"));
    assert_eq!(client.get_setting("baz"), None);

    assert_eq!(client.set_setting("foo", "foo_2"), Some("foo".to_string()));
    assert_eq!(client.set_setting("bar", "bar_2"), Some("bar".to_string()));
    assert_eq!(client.get_option("foo"), Some("foo_2"));
    assert_eq!(client.set_option("foo", "foo_3"), Some("foo_2".to_string()));
}

#[test]
fn default_client_has_no_tls_source() {
    let c = Client::default();
    assert!(!c.tls_resolved);
    assert!(c.tls_source.is_none());
    assert_eq!(c.http_tls_config(), HttpTls::Default);
}

#[test]
fn exclusive_without_ca_records_intent_but_no_resolved() {
    let c = Client::default();
    let trust = c.changed_trust(TrustChange::Exclusive);
    let c = c.mutate_trust(trust, false);
    assert!(!c.tls_resolved, "exclusive trust with no CA must not resolve a config");
    assert!(
        c.tls_source.is_some(),
        "configured-trust intent must be recorded even when resolve fails"
    );
}

#[test]
fn failclosed_survives_non_tls_pool_rebuild() {
    let c = Client::default();
    let trust = c.changed_trust(TrustChange::Exclusive);
    let c = c.mutate_trust(trust, false).with_pool_idle_timeout(Duration::from_secs(1));
    assert!(c.tls_source.is_some());
    assert!(!c.tls_resolved);
    assert_eq!(c.http_tls_config(), HttpTls::FailClosed);
}

#[test]
fn trust_accumulates_over_changes() {
    let c = Client::default();
    let t = c.changed_trust(TrustChange::NativeRoots(false));
    let c = c.mutate_trust(t, true);
    assert_eq!(c.http_tls_config(), HttpTls::Resolved);
    let t = c.changed_trust(TrustChange::RootCa("/ca.pem".to_string()));
    let c = c.try_mutate_trust(t, Ok(())).unwrap();
    let t = c.changed_trust(TrustChange::Intermediate("/mid.pem".to_string()));
    let c = c.try_mutate_trust(t, Ok(())).unwrap();
    let t = c.changed_trust(TrustChange::WebpkiRoots(true));
    let c = c.mutate_trust(t, true).clone();
    match &c.tls_source {
        Some(TlsConfigSource::Trust(t)) => {
            assert!(!t.native_roots && !t.exclusive);
            assert_eq!(t.webpki_roots, Some(true));
            assert_eq!(t.extra_roots, vec!["/ca.pem".to_string()]);
            assert_eq!(t.extra_intermediates, vec!["/mid.pem".to_string()]);
        }
        other => panic!("expected a trust, got {other:?}"),
    }
    let t = c.changed_trust(TrustChange::Exclusive);
    let err = c
        .try_mutate_trust(t, Err(Error::Other("cannot read CA file".to_string())))
        .unwrap_err();
    assert!(matches!(err, Error::Other(s) if s == "cannot read CA file"));
    let c = Client::default().with_tls_config();
    assert_eq!(c.http_tls_config(), HttpTls::Resolved);
    assert!(c.changed_trust(TrustChange::Exclusive).native_roots);
}

#[test]
fn default_clients_are_set_up_as_documented() {
    let c = Client::default();
    assert_eq!(c.url, "");
    assert_eq!(c.compression, Compression::Lz4);
    assert_eq!(c.pool_config.idle_timeout, Duration::from_secs(2));
    assert_eq!(c.pool_config.tcp_keepalive, Duration::from_secs(60));
    assert_eq!(c.pool_config.max_idle_per_host, None);
    let c = c
        .with_pool_max_idle_per_host(5)
        .with_tcp_keepalive(Duration::from_secs(9))
        .with_compression(Compression::Plain)
        .with_header("Cookie", "A=1");
    assert_eq!(c.pool_config.max_idle_per_host, Some(5));
    assert_eq!(c.pool_config.tcp_keepalive, Duration::from_secs(9));
    assert!(!c.compression.is_enabled());
    assert_eq!(c.headers, vec![("Cookie".to_string(), "A=1".to_string())]);
}

#[test]
fn http_clients_of_the_caller_are_not_rebuilt() {
    assert!(Client::default().rebuilds_http_client());
    let c = Client::with_http_client().with_pool_idle_timeout(Duration::from_secs(30));
    assert!(!c.rebuilds_http_client());
    assert!(!c.clone().rebuilds_http_client());
}

#[test]
fn another_place_needs_another_cache() {
    let c = Client::default().cache_replaced();
    assert!(!c.fresh_cache);
    assert!(c.clone().with_url("http://localhost:8123").fresh_cache);
    assert!(c.clone().with_database("test").fresh_cache);
    assert!(!c.with_setting("a", "b").fresh_cache);
}

#[test]
fn roles_replace_earlier_roles() {
    let c = Client::default()
        .with_setting("role", "manual")
        .with_option("other", "x")
        .with_roles(vec!["foo".into(), "bar".into(), "foo".into()]);
    assert_eq!(c.roles, vec!["foo".to_string(), "bar".to_string()]);
    assert_eq!(c.get_setting("role"), None);
    assert_eq!(c.get_setting("other"), Some("x"));
    let c = c.with_roles(vec!["baz".into()]);
    assert_eq!(c.roles, vec!["baz".to_string()]);
    assert!(c.with_default_roles().roles.is_empty());
}

#[test]
fn products_come_in_reverse_order() {
    let c = Client::default();
    let agent = "clickhouse-rs/0.12.2 (lv:rust/1.67.0, os:macos)";
    assert_eq!(c.user_agent(agent), agent);
    let c = c.with_product_info("MyDataSource", "v1.0.0").with_product_info("MyApp", "0.0.1");
    assert_eq!(
        c.user_agent(agent),
        "MyApp/0.0.1 MyDataSource/v1.0.0 clickhouse-rs/0.12.2 (lv:rust/1.67.0, os:macos)"
    );
}

#[test]
fn durability_is_a_matter_of_settings() {
    assert_eq!(Durability::default(), Durability::Background);
    let c = Client::default().with_durability(Durability::Background);
    assert!(c.settings.is_empty());
    let c = c.with_durability(Durability::Foreground);
    assert_eq!(c.get_setting("distributed_foreground_insert"), Some("1"));
    assert_eq!(c.get_setting("fsync_after_insert"), None);
    let c = c.with_durability(Durability::ForegroundFsynced);
    assert_eq!(c.get_setting("fsync_after_insert"), Some("1"));
    assert_eq!(c.get_setting("fsync_directories"), Some("1"));
}

#[test]
fn queries_get_ids_when_asked_to() {
    let c = Client::default().with_auto_query_id();
    let id = c.query("SELECT 1").client.get_setting("query_id").unwrap().to_string();
    assert_eq!(id.len(), 36);
    assert_eq!(&id[14..15], "7");
    assert_eq!(id.matches('-').count(), 4);
    assert!(id.chars().all(|c| c == '-' || c.is_ascii_digit() || ('a'..='f').contains(&c)));
    let other = c.query("SELECT 1").client.get_setting("query_id").unwrap().to_string();
    assert_ne!(id, other);
    let c = c.with_setting("query_id", "mine");
    assert_eq!(c.query("SELECT 1").client.get_setting("query_id"), Some("mine"));
    assert_eq!(Client::default().query("SELECT 1").client.get_setting("query_id"), None);
}

#[test]
fn queries_are_killed_by_their_id() {
    let c = Client::default();
    assert!(c.kill_on_drop_handle().is_none());
    let c = c.with_kill_on_drop();
    assert!(c.kill_on_drop_handle().is_none());
    let c = c.with_setting("query_id", "q'1");
    let (client, id) = c.kill_on_drop_handle().unwrap();
    assert_eq!(id, "q'1");
    assert_eq!(
        client.kill_query(&id).sql.finish().unwrap(),
        "KILL QUERY WHERE query_id = 'q\\'1' SYNC"
    );
    assert_eq!(c.ping().sql.finish().unwrap(), "SELECT 1");
}

#[test]
fn table_names_are_qualified() {
    let c = Client::default();
    let pair = |a: &str, b: &str| (a.to_string(), b.to_string());
    assert_eq!(c.qualified_name("t"), pair("default", "t"));
    assert_eq!(c.qualified_name("db.t.x"), pair("db", "t.x"));
    let c = c.with_database("mine");
    assert_eq!(c.qualified_name("t"), pair("mine", "t"));
    assert_eq!(
        c.table_engine("o'.t?").sql.finish().unwrap(),
        "SELECT engine FROM system.tables WHERE database = 'o\\'' AND name = 't?' LIMIT 1"
    );
    assert!(Client::is_distributed_table("Distributed"));
    assert!(!Client::is_distributed_table("MergeTree"));
}

#[test]
fn inserts_know_whether_columns_are_needed() {
    let c = Client::default();
    let plan = c.insert("my`t");
    assert_eq!(plan.table, "`my\\`t`");
    assert!(plan.needs_metadata);
    let c = c.with_validation(false);
    assert!(!c.insert("t").needs_metadata);
    assert_eq!(c.insert_unescaped("db.t").table, "db.t");
    let plan = c.insert_native("t");
    assert!(plan.needs_metadata);
    assert_eq!(plan.table, "`t`");
}

#[test]
fn tables_are_described() {
    assert_eq!(row_insert_metadata_query("`t`"), "DESCRIBE TABLE `t`");
    let q = Client::default().describe_table("`t`");
    assert_eq!(q.sql.finish().unwrap(), "DESCRIBE TABLE `t`");
    assert_eq!(q.client.get_setting("describe_include_subcolumns"), Some("0"));
}

fn column(name: &str, data_type: u8) -> DescribedColumn<u8, char> {
    DescribedColumn { name: name.to_string(), data_type: Ok(data_type), default_kind: Ok('d') }
}

#[test]
fn columns_are_kept_until_they_are_cleared() {
    let mut cache: InsertMetadataCache<InsertMetadata<u8, char>> = InsertMetadataCache::default();
    assert!(cache.get("t").is_none());
    let described = vec![column("a", 1), column("b", 2), column("a", 3)];
    store_insert_metadata(&mut cache, "t", described).unwrap();
    let metadata = cache.get("t").unwrap();
    assert_eq!(metadata.columns.len(), 3);
    assert_eq!(metadata.column_default_kinds, vec!['d', 'd', 'd']);
    assert_eq!(metadata.lookup("a"), Some(2));
    assert_eq!(metadata.lookup("b"), Some(1));
    assert_eq!(metadata.lookup("c"), None);
    assert!(cache.get("u").is_none());
    store_insert_metadata(&mut cache, "t", vec![column("z", 9)]).unwrap();
    assert_eq!(cache.get("t").unwrap().columns[0].data_type, 9);
    cache.clear();
    assert!(cache.get("t").is_none());
}

#[test]
fn the_first_bad_column_is_reported() {
    let mut cache: InsertMetadataCache<InsertMetadata<u8, char>> = InsertMetadataCache::default();
    let mut bad = column("b", 2);
    bad.data_type = Err(Error::Other("type".to_string()));
    bad.default_kind = Err(Error::Other("kind".to_string()));
    let mut worse = column("c", 3);
    worse.default_kind = Err(Error::Other("later".to_string()));
    let err = store_insert_metadata(&mut cache, "t", vec![column("a", 1), bad, worse]).unwrap_err();
    assert!(matches!(err, Error::Other(s) if s == "type"));
    assert!(cache.get("t").is_none());
}

#[test]
fn mocked_urls_lead_to_the_real_server() {
    let client =
        Client::default().with_url_or_mock("http://mocked.1", Some("http://127.0.0.1:9"));
    assert_eq!(client.url, "http://127.0.0.1:9");
    assert!(client.mocked && client.fresh_cache);
    assert!(!client.get_validation());
    let client = Client::default().with_url_or_mock("http://localhost:8123", None);
    assert_eq!(client.url, "http://localhost:8123");
    assert!(!client.mocked);
    assert!(client.get_validation());
}
