//! Request handling logic of a small static-content HTTP server: cleaning of
//! request paths, routing, content types, directory index selection, error
//! answers, start-up settings, and the glue values of the script runners.

pub mod text;
pub mod path;
pub mod config;
pub mod mime;
pub mod response;
pub mod dir_index;
pub mod shared;
pub mod javascript;
pub mod lua;
