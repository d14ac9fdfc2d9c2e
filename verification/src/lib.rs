pub mod event;
pub mod laws;
pub mod model;
pub mod report;
pub mod snapshot;
pub mod watcher;
