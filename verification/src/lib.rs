//! Converts Chrome trace-event streams into folded-stack lines for
//! flame-graph tools: matched Begin/End pairs become one line each,
//! `path duration`, where the path joins the names of the open spans.

pub mod event;
pub mod fold;
pub mod matcher;
pub mod laws;
