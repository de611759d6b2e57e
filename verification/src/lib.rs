//! Library for organizing media files: it classifies noisy release-group
//! filenames into a `(title-or-season, episode)` identity, formats canonical
//! destination names, maps source paths to destination paths, and keeps an
//! index of files already seen so repeated runs skip unchanged input.
//! A companion set of types describes remote object metadata and the
//! configuration of the fetch utility built on the same crate.

pub mod check;
pub mod config;
pub mod error;
pub mod link;
pub mod meta;
pub mod scan;
pub mod strutil;
pub mod transfer;
