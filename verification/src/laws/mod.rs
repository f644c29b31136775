//! What calls of the library do, in terms of what goes into them and what comes out. Each law
//! speaks of calls that have been made: `call_ensures` of a function, its arguments and its
//! result.
pub mod balancing;
pub mod connections;
pub mod counting;
pub mod fields;
pub mod limiting;
pub mod requests;
pub mod sessions;
pub mod showing;
pub mod starting;
