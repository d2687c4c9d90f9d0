//! Verified core of a small desktop utility that lists the window
//! manager's open windows, grouped by workspace, and lets the user jump
//! to a workspace by clicking a row.
//!
//! The library holds everything that can be stated and proved: decoding
//! the client list from the control tool's JSON output, grouping the
//! records by workspace, ordering workspaces numerically for display,
//! and the time-bounded cache that decides when to re-query.  The GUI
//! shell around it only performs the subprocess calls and draws the
//! widgets.

pub mod grouping;
pub mod json;
pub mod query;
pub mod render;
pub mod state;
pub mod window;
pub mod workspace_id;
