//! Reconciles the dependency ranges of a set of package manifests into one
//! workspace, on top of a small model of npm-style version ranges.

pub mod bundler;
pub mod error;
pub mod manifest;
pub mod number;
pub mod order;
pub mod parse;
pub mod reconcile;
pub mod render;
pub mod roundtrip;
pub mod scripts;
pub mod segments;
pub mod tally;
pub mod text;
pub mod version;

pub use bundler::{frame_patterns, relocate, unescape_slashes, Frame, FrameError};
pub use error::{ParseError, ReconcileError};
pub use manifest::{Dependency, DependencyMap, Manifest};
pub use reconcile::{reconcile, Policy, Workspace};
pub use scripts::{setup_notest_script, strip_tests, ScriptError, ScriptMap};
pub use tally::{aggregate, Tally};
pub use version::{PatchStrategy, Version};
