//! Report how long short-lived "changeset" marker files existed in a
//! repository's history: resolve each path's creation and (optional)
//! removal event from history lines, filter by an observation window and
//! a minimum age, sort by age descending, and summarise.

pub mod pipeline;
pub mod render;
pub mod report;
pub mod resolve;
pub mod textutil;
pub mod timestamps;
pub mod window;

pub use pipeline::PathHistory;
pub use pipeline::Report;
pub use pipeline::build_report;
pub use render::entry_line;
pub use render::summary_line;
pub use report::ChangesetLifetime;
pub use resolve::HistoryEvent;
pub use resolve::LifetimeError;
pub use window::ObservationWindow;
pub use window::WindowError;
