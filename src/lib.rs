//! Assembly logic for a distributable wallpaper pack: manifest parsing,
//! selection grouping, contributor resolution, stable naming, and the
//! filesystem layout plan that a runner carries out.
pub mod naming;
pub mod parser;
pub mod grouping;
pub mod resolver;
pub mod layout;
pub mod convert;
