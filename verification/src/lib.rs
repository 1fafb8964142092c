//! A row-driven HTML page renderer: JSON rows produced by a SQL query stream
//! are folded, one at a time, into a streaming HTTP response whose body is
//! assembled by a two-level template system.
//!
//! The crate is organised leaves-first:
//! - [`json`] models JSON rows as plain data and carries the calls into
//!   `serde_json` behind trusted items;
//! - [`error`] is the error-chain type the renderer reports with;
//! - [`database`] models the row-stream side: variable assignment targets and
//!   the items a query stream yields;
//! - [`templates`] holds compiled split templates and the trusted calls into
//!   the `handlebars` engine;
//! - [`split_renderer`] renders one template in three phases (start, item*,
//!   end), carrying block-local state between phases;
//! - [`render`] is the page-assembly state machine: header phase, body phase,
//!   component switching, dynamic expansion and inline error rendering.

pub mod database;
pub mod error;
pub mod json;
pub mod render;
pub mod split_renderer;
pub mod templates;

use vstd::prelude::*;

verus! {

} // verus!
