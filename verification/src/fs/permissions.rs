//! Permission bits that control access to a file system object.
//!
//! A mode is the usual 9-bit POSIX encoding: three read/write/execute
//! triples for the owning user, the group, and everyone else.

use vstd::prelude::*;

verus! {

/// The read/write/execute triple for one class of users.
pub struct Permission {
    pub read: bool,
    pub write: bool,
    pub execute: bool,
}

impl Permission {
    pub fn new(read: bool, write: bool, execute: bool) -> (r: Permission)
        ensures
            r.read == read,
            r.write == write,
            r.execute == execute,
    {
        Permission { read, write, execute }
    }
}

/// The mode value that a [`Permission`] triple contributes for one class,
/// given the bit weights of that class.  The weights are distinct powers of
/// two, so summing them sets exactly the chosen bits.
pub open spec fn class_bits(p: Permission, read_bit: u32, write_bit: u32, exec_bit: u32) -> int {
    (if p.read {
        read_bit
    } else {
        0
    }) + (if p.write {
        write_bit
    } else {
        0
    }) + (if p.execute {
        exec_bit
    } else {
        0
    })
}

/// The full 9-bit mode encoded from the three permission triples.
pub open spec fn mode_of(user: Permission, group: Permission, other: Permission) -> int {
    class_bits(user, 0o400, 0o200, 0o100) + class_bits(group, 0o040, 0o020, 0o010) + class_bits(
        other,
        0o004,
        0o002,
        0o001,
    )
}

/// The 9-bit permission set of a file system object.
pub struct FilePermissions {
    pub mode: u32,
}

impl FilePermissions {
    pub fn from_mode(mode: u32) -> (r: FilePermissions)
        ensures
            r.mode == mode,
    {
        FilePermissions { mode }
    }

    pub fn from_permissions(user: &Permission, group: &Permission, other: &Permission) -> (r:
        FilePermissions)
        ensures
            r.mode == mode_of(*user, *group, *other),
    {
        FilePermissionBuilder::new()
            .user_permission(user.read, user.write, user.execute)
            .group_permission(group.read, group.write, group.execute)
            .other_permission(other.read, other.write, other.execute)
            .build()
    }

    pub fn set_mode(&mut self, mode: u32)
        ensures
            final(self).mode == mode,
    {
        self.mode = mode;
    }

    pub fn mode(&self) -> (r: u32)
        ensures
            r == self.mode,
    {
        self.mode
    }

    pub fn user(&self) -> (r: Permission)
        ensures
            r.read == ((self.mode & 0o400) != 0),
            r.write == ((self.mode & 0o200) != 0),
            r.execute == ((self.mode & 0o100) != 0),
    {
        Permission {
            read: (self.mode & 0o400) != 0,
            write: (self.mode & 0o200) != 0,
            execute: (self.mode & 0o100) != 0,
        }
    }

    pub fn group(&self) -> (r: Permission)
        ensures
            r.read == ((self.mode & 0o040) != 0),
            r.write == ((self.mode & 0o020) != 0),
            r.execute == ((self.mode & 0o010) != 0),
    {
        Permission {
            read: (self.mode & 0o040) != 0,
            write: (self.mode & 0o020) != 0,
            execute: (self.mode & 0o010) != 0,
        }
    }

    pub fn other(&self) -> (r: Permission)
        ensures
            r.read == ((self.mode & 0o004) != 0),
            r.write == ((self.mode & 0o002) != 0),
            r.execute == ((self.mode & 0o001) != 0),
    {
        Permission {
            read: (self.mode & 0o004) != 0,
            write: (self.mode & 0o002) != 0,
            execute: (self.mode & 0o001) != 0,
        }
    }
}

impl Clone for FilePermissions {
    fn clone(&self) -> (r: FilePermissions)
        ensures
            r == *self,
    {
        FilePermissions { mode: self.mode }
    }
}

impl Default for FilePermissions {
    /// The default mode gives the owner read and write access only.
    fn default() -> (r: FilePermissions)
        ensures
            r.mode == 0o600,
    {
        FilePermissions { mode: 0o600 }
    }
}

/// Accumulates the three permission triples and encodes them as a mode.
pub struct FilePermissionBuilder {
    pub user: Permission,
    pub group: Permission,
    pub other: Permission,
}

impl FilePermissionBuilder {
    pub fn new() -> (r: FilePermissionBuilder)
        ensures
            r.user == (Permission { read: false, write: false, execute: false }),
            r.group == (Permission { read: false, write: false, execute: false }),
            r.other == (Permission { read: false, write: false, execute: false }),
    {
        FilePermissionBuilder {
            user: Permission::new(false, false, false),
            group: Permission::new(false, false, false),
            other: Permission::new(false, false, false),
        }
    }

    pub fn user_permission(self, read: bool, write: bool, execute: bool) -> (r:
        FilePermissionBuilder)
        ensures
            r.user == (Permission { read, write, execute }),
            r.group == self.group,
            r.other == self.other,
    {
        FilePermissionBuilder { user: Permission::new(read, write, execute), ..self }
    }

    pub fn group_permission(self, read: bool, write: bool, execute: bool) -> (r:
        FilePermissionBuilder)
        ensures
            r.group == (Permission { read, write, execute }),
            r.user == self.user,
            r.other == self.other,
    {
        FilePermissionBuilder { group: Permission::new(read, write, execute), ..self }
    }

    pub fn other_permission(self, read: bool, write: bool, execute: bool) -> (r:
        FilePermissionBuilder)
        ensures
            r.other == (Permission { read, write, execute }),
            r.user == self.user,
            r.group == self.group,
    {
        FilePermissionBuilder { other: Permission::new(read, write, execute), ..self }
    }

    pub fn build(&self) -> (r: FilePermissions)
        ensures
            r.mode == mode_of(self.user, self.group, self.other),
    {
        let mut mode: u32 = 0;
        if self.user.read {
            mode = mode + 0o400;
        }
        if self.user.write {
            mode = mode + 0o200;
        }
        if self.user.execute {
            mode = mode + 0o100;
        }
        if self.group.read {
            mode = mode + 0o040;
        }
        if self.group.write {
            mode = mode + 0o020;
        }
        if self.group.execute {
            mode = mode + 0o010;
        }
        if self.other.read {
            mode = mode + 0o004;
        }
        if self.other.write {
            mode = mode + 0o002;
        }
        if self.other.execute {
            mode = mode + 0o001;
        }
        FilePermissions::from_mode(mode)
    }
}

} // verus!
