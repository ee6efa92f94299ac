//! A local development HTTP server: the decisions it makes, as a library.

pub mod assets;
pub mod configs;
pub mod digits;
pub mod laws;
pub mod net;
pub mod outside;
pub mod paths;
pub mod platforms;
pub mod servers;
pub mod sorting;
pub mod supports;
pub mod table;
pub mod tasks;
pub mod text;
pub mod uis;
