//! Verified core of a terminal client for a remote issue tracker: a local
//! cache of projects, issues, journals and users, the incremental sync
//! state machine that fills it, and the filter/query facade the interface
//! reads from.

pub mod app;
pub mod clock;
pub mod config;
pub mod db;
pub mod error;
pub mod events;
pub mod filters;
pub mod form_field;
pub mod issue_form;
pub mod laws;
pub mod redmine;
pub mod sorting;
pub mod sync;
pub mod text;
pub mod theme;
pub mod widgets;

pub use app::IssueSortOrder;
pub use error::{CacheError, SyncError};
pub use theme::ThemeName;
