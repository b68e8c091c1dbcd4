//! Request handling core of a small HTTP server: request reading, head
//! analysis, routing, and the replies of the API endpoints.

pub mod bytes;
pub mod commands;
pub mod debug;
pub mod deploy;
pub mod head;
pub mod inspect;
pub mod reply;
pub mod request;
pub mod route;
pub mod text;
pub mod utf8;
