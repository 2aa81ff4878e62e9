//! The Last.fm scrobbling API: error codes, authentication, request parameters with their
//! signatures, and how the server's answers to scrobbles are read.
pub mod error;
pub mod auth;
pub mod parameters;
pub mod scrobble;
