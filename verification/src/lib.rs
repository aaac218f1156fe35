//! A small direct-messaging service: an append-only message store, the
//! queries that derive conversations from it, and the view models that a
//! front end renders.

pub mod api;
pub mod model;
pub mod text;
pub mod time;
