//! The terminal front end: what is shown of a conversation, and what keys and
//! the mouse do.

pub mod app;
pub mod scrollback;
pub mod selection;
