pub mod async_inserter;
pub mod batch_isolation;
pub mod batch_laws;
pub mod client;
pub mod client_laws;
pub mod compression;
pub mod duration;
pub mod error;
pub mod http_client;
pub mod insert_native;
pub mod metadata;
pub mod native;
pub mod progress;
pub mod query;
pub mod recovery;
pub mod response;
pub mod response_laws;
pub mod settings;
pub mod sink;
pub mod sql;
pub mod sql_builder;
pub mod text;
pub mod tls;
