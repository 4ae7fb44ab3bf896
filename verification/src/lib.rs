//! Serving an embedded documentation viewer under a mountable URL prefix.
//!
//! A host registers the API specifications that the viewer is to display
//! ([`registry`]), chooses a mount prefix and the options of the viewer
//! ([`config`]), and hands over the files of the viewer ([`assets`]). From then
//! on every request below the prefix is answered by [`resolver::resolve`], a
//! function of the request path, the configuration and the bundle alone: it
//! serves the index document with the list of specifications written into it
//! ([`initializer`]), the inline specifications, and the assets of the bundle,
//! and it refuses paths that lead out of the bundle ([`path`]). [`mount`] states
//! what a host framework has to route and how an answer reads as an HTTP
//! response; no framework is named in this crate.
//!
//! Paths, names and documents are byte strings, as they arrive in a request
//! and leave in a response. Contracts speak of them as `Seq<u8>`, and of every
//! type through its view. What holds of all requests is proved in
//! [`guarantees`].

pub mod assets;
pub mod bytes;
pub mod config;
pub mod error;
pub mod guarantees;
pub mod initializer;
pub mod media;
pub mod mount;
pub mod path;
pub mod registry;
pub mod resolver;
pub mod settings;
