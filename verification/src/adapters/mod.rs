//! The plain parts of the adapters: what the file stores, the remote queue and
//! the live progress list decide, apart from the file system, the network and
//! the terminal themselves.
pub mod store;
pub mod remote_queue;
pub mod progress;
