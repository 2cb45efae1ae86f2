//! The device-abstraction core of a home-automation hub: a catalog of
//! services and features, selectors over it, tag edits, method-call routing
//! and live watches.

pub mod api;
pub mod catalog_laws;
pub mod exactly;
pub mod ids;
pub mod json;
pub mod manager;
pub mod method_call;
pub mod parse;
pub mod parse_range;
pub mod range;
pub mod registry;
pub mod selection;
pub mod selector;
pub mod seqs;
pub mod services;
pub mod tag_store;
pub mod tags;
pub mod value;
pub mod watch;
pub mod watch_laws;
