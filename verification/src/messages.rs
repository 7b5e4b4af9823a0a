//! The messages that nodes exchange.

pub mod find_group_response;
