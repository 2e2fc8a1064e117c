//! The logic of a desktop process explorer: ordering and filtering of the
//! process list, the column state of its table, the bounded sample histories
//! behind its usage graphs, and the text it shows for sizes and numbers.

pub mod columns;
pub mod text;
pub mod listing;
pub mod history;
pub mod size;
pub mod display;
