//! Composite shape of a layered filesystem: a base tree overlaid by
//! change layers that add, replace, remove (whiteout) or clear (opaque)
//! entries, under either the OCI or the overlayfs whiteout convention.

pub mod laws;
pub mod merge;
pub mod option;
pub mod tree;
pub mod xattrs;

pub use tree::EntryKind;
pub use tree::Overlay;
pub use tree::WhiteoutSpec;
pub use tree::WhiteoutType;
