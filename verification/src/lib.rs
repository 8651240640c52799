//! Weighted bucket selection for background images.
//!
//! A catalog of weighted directory "buckets" is loaded from a TOML
//! configuration, each bucket is scanned for image files, and one image is
//! drawn by a two-stage weighted-random choice: first a bucket, with
//! probability proportional to its effective weight, then a file uniformly
//! within that bucket.

pub mod bucket;
pub mod catalog;
pub mod display;
pub mod paths;
pub mod predicate;
pub mod select;

pub use bucket::Bucket;
pub use display::{display_path, display_short_path};
pub use paths::has_image_ext;
pub use predicate::Predicate;
pub use select::SelectError;
