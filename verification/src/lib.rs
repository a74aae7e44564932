//! Decision logic for building and installing community-maintained source
//! packages whose build recipes are not trusted.
//!
//! The library touches no file and asks the user nothing. It decides: which
//! package bases are built, in which order ([`schedule`], [`steps`]); how the
//! review of a recipe proceeds ([`review`]); when an earlier build is kept and
//! how a build directory is replaced ([`cache`]); which built archives are
//! handed on and how they reach the staging directory ([`archive`],
//! [`relocation`]). [`install`] puts these together into the plan of one
//! installation. The caller carries the plan out and reports back what it
//! found.

pub mod archive;
pub mod cache;
pub mod collections;
pub mod install;
pub mod names;
pub mod positions;
pub mod relocation;
pub mod review;
pub mod schedule;
pub mod steps;
