//! Flattening of serialized data (CSV, JSON, TOML, YAML) into greppable
//! assignment lines such as `json.users[0].name = "Alice";`.
pub mod format;
pub mod input;
pub mod value;
pub mod lines;
pub mod printer;
pub mod text;
pub mod order;
pub mod unicode;
pub mod json_text;
pub mod tree;
pub mod query;
pub mod color;
pub mod deserializer;
