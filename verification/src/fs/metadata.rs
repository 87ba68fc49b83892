//! The metadata of an inode: permission bits, ownership, timestamps.

use vstd::prelude::*;

use crate::fs::permissions::FilePermissions;
use crate::fs::users::{GroupId, UserId};

verus! {

/// Relies on chrono's `Utc::now` and `DateTime::timestamp`: the current
/// time as whole seconds since the Unix epoch.  The clock is free to
/// return any value, so nothing is promised of the result.
#[verifier::external_body]
pub(crate) fn current_timestamp() -> i64 {
    chrono::Utc::now().timestamp()
}

/// Ownership, permission bits, and timestamps of one inode.
///
/// The timestamps are whole seconds since the Unix epoch.
pub struct InodeMetadata {
    pub permissions: FilePermissions,
    pub owner: UserId,
    pub group: GroupId,
    pub created_at: i64,
    pub updated_at: i64,
}

impl InodeMetadata {
    /// Fresh metadata stamped with the current clock reading.  The clock
    /// is read twice, so the two timestamps need not be equal.
    pub fn new(permissions: FilePermissions, owner: UserId, group: GroupId) -> (r: InodeMetadata)
        ensures
            r.permissions == permissions,
            r.owner == owner,
            r.group == group,
    {
        InodeMetadata {
            permissions,
            owner,
            group,
            created_at: current_timestamp(),
            updated_at: current_timestamp(),
        }
    }
}

impl Clone for InodeMetadata {
    fn clone(&self) -> (r: InodeMetadata)
        ensures
            r == *self,
    {
        InodeMetadata {
            permissions: self.permissions.clone(),
            owner: self.owner,
            group: self.group,
            created_at: self.created_at,
            updated_at: self.updated_at,
        }
    }
}

} // verus!
