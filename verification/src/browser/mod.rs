//! Browser pane logic: tab navigation state and address-bar resolution.

pub mod model;
pub mod url_input;
