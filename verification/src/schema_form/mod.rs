//! A schema-driven interactive form: walks the `properties` of a JSON
//! Schema and collects a validated value for each field.
pub mod fields;
pub mod datetime;
pub mod scalar;
pub mod form;
