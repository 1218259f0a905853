//! localbill: parsing, storing, and managing Serbian fiscal invoices as
//! plain-text transaction files.
pub mod text;
pub mod sanitize;
pub mod ports;
pub mod error;
pub mod commands;
pub mod paths;
pub mod invoice;
pub mod config;
pub mod cli;
pub mod order;
pub mod adapters;
pub mod schema_form;
