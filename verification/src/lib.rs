//! An in-memory tabular-data engine: it loads a delimited dataset fully into
//! memory, infers per-column semantic type, and supports bulk sort,
//! multi-condition filter, and undoable cell edits.

pub mod textops;
pub mod numeric;
pub mod history;
pub mod table;
pub mod filterops;
pub mod sorting;
pub mod inference;
pub mod codec;
pub mod jsonout;
pub mod appcfg;
pub mod laws;

pub mod data;

pub use appcfg::{App, AppConfig, create_app, create_app_with_config, run_app};
