use clickhouse::client::{Authentication, Client};
use clickhouse::compression::Compression;
use clickhouse::error::Error;
use clickhouse::query::{ExecutePlan, Query};
use clickhouse::sql::{identifier, literal, set_roles};
use clickhouse::sql_builder::SqlBuilder;

fn client() -> Client {
    Client::default().with_url("http://localhost:8123/?old=1").with_compression(Compression::Plain)
}

#[test]
fn a_query_becomes_a_request() {
    let c = client()
        .with_database("db")
        .with_setting("a b", "c&d")
        .with_roles(vec!["r1".to_string(), "r2".to_string()])
        .with_header("X-Test", "1")
        .with_user("bob")
        .with_product_info("App", "1");
    let q = c.query("SELECT ? AS é").bind(Ok("1".to_string()));
    let req = q.do_execute(Some("CSV")).unwrap();
    assert_eq!(
        req.url,
        "http://localhost:8123/?default_format=CSV&database=db&a+b=c%26d&role=r1&role=r2"
    );
    assert_eq!(req.body, "SELECT 1 AS é");
    assert_eq!(req.content_length, "14");
    assert_eq!(req.headers, vec![("X-Test".to_string(), "1".to_string())]);
    assert_eq!(req.products_info[0].name, "App");
    assert!(!req.accept_zstd);
    assert!(matches!(
        req.authentication,
        Authentication::Credentials { user: Some(u), password: None } if u == "bob"
    ));
}

#[test]
fn compression_is_asked_for() {
    let url = |c: Compression| {
        client().with_compression(c).query("SELECT 1").fetch_bytes("Native").unwrap()
    };
    assert_eq!(
        url(Compression::Lz4).url,
        "http://localhost:8123/?default_format=Native&compress=1"
    );
    assert_eq!(
        url(Compression::Lz4Hc(4)).url,
        "http://localhost:8123/?default_format=Native&compress=1"
    );
    let zstd = url(Compression::Zstd(1));
    assert_eq!(
        zstd.url,
        "http://localhost:8123/?default_format=Native&enable_http_compression=1"
    );
    assert!(zstd.accept_zstd);
}

#[test]
fn bad_addresses_are_invalid_params() {
    let q = Client::default().with_url("localhost").query("SELECT 1");
    match q.do_execute(None) {
        Err(Error::InvalidParams(s)) => assert_eq!(s, "relative URL without a base"),
        other => panic!("expected InvalidParams, got {other:?}"),
    }
    let told = q.compose_request("x".to_string(), Err("no".to_string()));
    assert!(matches!(told, Err(Error::InvalidParams(s)) if s == "no"));
    let req = q.compose_request("x".to_string(), Ok("http://h/".to_string())).unwrap();
    assert_eq!((req.url.as_str(), req.body.as_str()), ("http://h/", "x"));
}

#[test]
fn places_must_be_taken() {
    let q = client().query("SELECT ?, ?").bind(Ok("1".to_string()));
    assert_eq!(q.sql_display(), "SELECT 1, ?");
    assert!(matches!(q.do_execute(None), Err(Error::InvalidParams(_))));
    let q = q.bind(Ok("2".to_string()));
    assert_eq!(q.sql.finish().unwrap(), "SELECT 1, 2");
    let q = q.bind(Ok("3".to_string()));
    assert!(matches!(q.sql.finish(), Err(Error::InvalidParams(_))));
    let q = client().query("SELECT ?").bind(Err("no literal".to_string()));
    match q.sql.finish() {
        Err(Error::InvalidParams(s)) => assert!(s.contains("no literal")),
        other => panic!("expected InvalidParams, got {other:?}"),
    }
}

#[test]
fn doubled_marks_are_plain() {
    let sql = SqlBuilder::new("a??b?c").bind_arg(Ok("X".to_string()));
    assert_eq!(sql.finish().unwrap(), "a?bXc");
    assert_eq!(SqlBuilder::new("").finish().unwrap(), "");
    assert_eq!(SqlBuilder::new("plain").copy().finish().unwrap(), "plain");
}

#[test]
fn fields_are_filled_in() {
    let c = client().with_kill_on_drop().with_setting("query_id", "q");
    let plan = c
        .query("SELECT ?fields FROM some WHERE no BETWEEN 0 AND 1")
        .fetch(Some("`no`,`name`".to_string()))
        .unwrap();
    assert_eq!(plan.request.body, "SELECT `no`,`name` FROM some WHERE no BETWEEN 0 AND 1");
    assert!(plan.validation);
    assert!(plan.request.url.contains("default_format=RowBinaryWithNamesAndTypes"));
    assert!(matches!(&plan.kill_on_drop, Some((_, id)) if id == "q"));
    let plan = client().with_validation(false).query("SELECT 1").fetch(None).unwrap();
    assert!(!plan.validation);
    assert!(plan.kill_on_drop.is_none());
    assert!(plan.request.url.contains("default_format=RowBinary"));
    assert!(!plan.request.url.contains("NamesAndTypes"));
    let err = client().query("SELECT ?fields").fetch(None).unwrap_err();
    assert!(matches!(err, Error::InvalidParams(_)));
    let err = client().query("SELECT ?fields").execute(true).unwrap_err();
    assert!(matches!(err, Error::InvalidParams(_)));
}

#[test]
fn the_native_protocol_gets_the_same_settings() {
    let c = Client::default()
        .with_database("db")
        .with_setting("query_id", "q")
        .with_roles(vec!["r".to_string()]);
    let pair = |a: &str, b: &str| (a.to_string(), b.to_string());
    match c.query("SELECT 1").idempotent().execute(true).unwrap() {
        ExecutePlan::Tcp(req) => {
            assert_eq!(req.query_id, "q");
            assert_eq!(req.sql, "SELECT 1");
            assert!(req.idempotent);
            assert_eq!(
                req.settings,
                vec![pair("database", "db"), pair("query_id", "q"), pair("role", "r")]
            );
        }
        other => panic!("expected Tcp, got {other:?}"),
    }
    match client().query("SELECT 1").execute(false).unwrap() {
        ExecutePlan::Http(req) => assert_eq!(req.url, "http://localhost:8123/?"),
        other => panic!("expected Http, got {other:?}"),
    }
    assert_eq!(c.query("SELECT 1").fetch_native_blocks(true).unwrap().sql, "SELECT 1");
    let err = c.query("SELECT 1").fetch_native_blocks(false).unwrap_err();
    assert!(matches!(
        err,
        Error::Custom(s) if s == "fetch_native_blocks requires a TCP-transport Client (Client::tcp)"
    ));
}

#[test]
fn queries_have_settings_of_their_own() {
    let c = client();
    let q = c
        .query("SELECT 1")
        .with_session_id("s")
        .with_query_id("q")
        .async_insert(true)
        .with_option("x", "y")
        .with_role("one");
    assert_eq!(q.client.get_setting("session_id"), Some("s"));
    assert_eq!(q.client.get_setting("query_id"), Some("q"));
    assert_eq!(q.client.get_setting("async_insert"), Some("1"));
    assert_eq!(q.client.get_setting("wait_for_async_insert"), Some("1"));
    assert_eq!(q.client.get_setting("x"), Some("y"));
    assert_eq!(q.client.roles, vec!["one".to_string()]);
    assert!(c.settings.is_empty());
    let q = q.async_insert(false).with_default_roles();
    assert_eq!(q.client.get_setting("wait_for_async_insert"), Some("0"));
    assert!(q.client.roles.is_empty());
    let q = q.param("val", Ok("42".to_string()));
    assert_eq!(q.client.get_setting("param_val"), Some("42"));
    let q = q.param("bad", Err("too deep".to_string()));
    match q.sql.finish() {
        Err(Error::InvalidParams(s)) => assert_eq!(s, "invalid param: too deep"),
        other => panic!("expected InvalidParams, got {other:?}"),
    }
}

#[test]
fn exactly_one_row_is_wanted() {
    assert_eq!(Query::fetch_one(Ok(Some(5u8))).unwrap(), 5);
    assert!(matches!(Query::fetch_one::<u8>(Ok(None)), Err(Error::RowNotFound)));
    assert!(matches!(
        Query::fetch_one::<u8>(Err(Error::TimedOut)),
        Err(Error::TimedOut)
    ));
}

#[test]
fn quotes_cannot_be_broken_out_of() {
    assert_eq!(identifier("a`; DROP TABLE x; --\\"), "`a\\`; DROP TABLE x; --\\\\`");
    assert_eq!(literal("it's"), "'it\\'s'");
    assert_eq!(
        set_roles(&vec!["a".to_string(), "b`c".to_string()]),
        "SET ROLE `a`, `b\\`c`"
    );
}
