pub mod kv;
pub mod mysql;
