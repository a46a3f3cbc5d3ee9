//! The views: the decisions each makes on a key press, apart from drawing.
pub mod browse;
pub mod edit;
pub mod lines;
pub mod profile_list;
pub mod query;
