//! Long-running goals of a workspace: their records, their storage, the
//! monitor that drives their lifecycle, and the widget that shows them.
pub mod model;
pub mod store;
pub mod state;
pub mod ui;
pub mod tools;
