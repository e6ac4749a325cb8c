pub mod collector;
pub mod fields;
pub mod laws;
pub mod panes;
pub mod record;
pub mod scroll;
