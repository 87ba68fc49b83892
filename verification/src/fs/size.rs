//! Size reporting for inode contents.

use vstd::prelude::*;

verus! {

/// The size of an inode's content in bytes, as the `ls` layer displays
/// it.
pub trait Size {
    /// The reported size, as a specification.
    spec fn spec_size(&self) -> int;

    /// Returns the size of the content in bytes.
    fn size(&self) -> (r: u64)
        ensures
            r as int == self.spec_size(),
    ;
}

} // verus!
