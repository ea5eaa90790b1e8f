//! A small document store: JSON records kept as (optionally encrypted) blobs,
//! a structured filter evaluator, and self-signed identity certificates used
//! as capability tokens.
pub mod error;
pub mod json;
pub mod text;
pub mod document;
pub mod filter;
pub mod crypto;
pub mod storage;
pub mod cert;
pub mod db;
pub mod parse;

pub use cert::{certificate_username, CertManager, IssuedIdentity};
pub use crypto::Crypto;
pub use db::{commit_message, GithubDb, Mutation};
pub use document::Document;
pub use error::{CertError, CryptoError, DbError, FilterError};
pub use filter::{compare_values, get_nested_value, Filter, FilterCondition, FilterOp};
pub use json::{json_equal, JsonNumber, JsonValue, NumberRepr};
pub use parse::parse_filter;
pub use storage::Storage;
