pub mod cbor;
pub mod cose;
pub mod crypto;
pub mod json;
pub mod reader_auth;
pub mod time;
pub mod urls;
pub mod x509;
