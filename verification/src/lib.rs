//! Decoding and validation of `{name, value}` record documents.
//!
//! A raw text blob is decoded into an ordered sequence of records, checked
//! against a structural schema, and each record's fields are validated
//! against the rules of the selected variant (`Strings` or `Colors`).

pub mod model;
pub mod decode;
pub mod encode;
pub mod schema;
pub mod json;
pub mod colors;
pub mod strings;
pub mod validator;

pub use model::RecordModel;
