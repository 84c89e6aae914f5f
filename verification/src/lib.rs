//! Reference material for packages, gathered from the network and verified
//! with Verus.
//!
//! For each package name the library resolves the newest version that was
//! not withdrawn, crawls the generated documentation of that version, takes
//! anchor texts, code examples and the main text out of the pages, and reads
//! the README and the example files of the package's repository. It sends
//! nothing itself: a [`pipeline::Pipeline`] names one request at a time as a
//! [`fetch::Request`], the caller performs it and hands back the
//! [`fetch::Outcome`], and in the end the pipeline gives its
//! [`report::CrateResult`].
//!
//! The modules, leaves first:
//! - [`text`]: operations on the characters of a text;
//! - [`html`] and [`json`]: what is read from pages and from the registry's
//!   answers, through the crates that parse them;
//! - [`version`]: version strings and their ranking;
//! - [`extract`]: what is taken out of a documentation page;
//! - [`fetch`]: requests and their outcomes;
//! - [`registry`], [`docs`], [`github`]: the three stages of a pipeline;
//! - [`report`] and [`pipeline`]: the report on a package, the pipeline that
//!   writes it, and the answer to a batch of names.

pub mod docs;
pub mod extract;
pub mod fetch;
pub mod github;
pub mod html;
pub mod json;
pub mod pipeline;
pub mod registry;
pub mod report;
pub mod text;
pub mod version;
