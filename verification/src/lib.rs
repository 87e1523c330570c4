//! gitk_rs: the verified core of a gitk-style repository browser.
//!
//! The library holds the repository data model, the lane layout of the
//! commit graph, and the rules that turn what a repository reports into
//! the rows, labels and texts that the browser shows.

pub mod model;
pub mod graph;
pub mod text;
pub mod palette;
pub mod clock;
pub mod refs;
pub mod history;
pub mod diff;
pub mod blame;
pub mod display;
pub mod browser;
