//! Documentation-build stage that rewrites diagram directives embedded in
//! document text into image links, decides when a cached rendering may be
//! reused, and computes the relative link from a nested document to the
//! flat cache directory of rendered images.

pub mod book;
pub mod freshness;
pub mod grammar;
pub mod paths;
pub mod render;
pub mod rewrite;

pub use freshness::should_generate;
