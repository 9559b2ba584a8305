//! The HTTP client of Hurl: what it asks of its curl handle, how it reads an exchange,
//! when it follows a redirection, and which cookies it sends.
//!
//! The library does no input or output. A [`client::Client`] collects the calls that its
//! handle is owed, an [`exchange::Exchange`] takes the events of a transfer, and both
//! give back what to log. Only the cookies that the handle holds in memory are read and
//! cleared on the handle itself.

pub mod client;
pub mod cookie;
pub mod exchange;
pub mod handle;
pub mod header;
mod items;
pub mod jar;
pub mod message;
pub mod options;
pub mod outside;
pub mod percent;
pub mod places;
pub mod redirect;
pub mod request_spec;
pub mod settings;
pub mod text;
pub mod wire;
