//! The options of one merge invocation, as plain values.

use crate::tree::WhiteoutSpec;
use vstd::prelude::*;

verus! {

/// What a merge run is asked to do: where the base tree lies, the
/// upper trees in application order, and which whiteout convention to
/// read the upper trees by.
#[derive(Debug)]
pub struct MergeTreeOpt {
    /// Base dir path.
    pub base_path: String,
    /// Upper dir path list, in application order.
    pub upper_path_list: Vec<String>,
    /// Whiteout convention selector: one picks overlayfs, every other
    /// number picks OCI.
    pub whiteout: u32,
}

impl MergeTreeOpt {
    /// The convention the numeric selector stands for.
    pub fn whiteout_spec(&self) -> (r: WhiteoutSpec)
        ensures
            r == (if self.whiteout == 1 {
                WhiteoutSpec::Overlayfs
            } else {
                WhiteoutSpec::Oci
            }),
    {
        if self.whiteout == 1 {
            WhiteoutSpec::Overlayfs
        } else {
            WhiteoutSpec::Oci
        }
    }
}

} // verus!
