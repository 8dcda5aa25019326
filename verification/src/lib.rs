//! A minimal gateway that maps HTTP-style request paths to configured
//! operating-system commands.  The request-line parser, the route registry,
//! the command-result policy, the JSON body serializer and the wire-format
//! writer are all verified; the sockets, threads and process spawning live
//! outside the library and feed it plain values.

pub mod executor;
pub mod handler;
pub mod http;
pub mod json;
pub mod registry;
pub mod text;
