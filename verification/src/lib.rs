//! Composition and dispatch layer of the administrative HTTP API.
//!
//! A server is put together once, by [`setup::setup`], from a shared
//! context, the routes of the web interface, the routes of the API and two
//! error handlers. After that it is only read: [`server::Server::dispatch`]
//! says for each request what is to be done, and the caller does it.
//!
//! The library does no input or output. Where a request is answered from a
//! file, it names the file, which always lies below the static root, and
//! [`web::file_reply`] turns what reading it gave into the answer.

pub mod context;
pub mod error;
pub mod key;
pub mod path;
pub mod route;
pub mod server;
pub mod setup;
pub mod text;
pub mod web;
