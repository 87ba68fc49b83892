//! The content of an inode: file payload, directory children, or link
//! target.
//!
//! A directory keeps its children as a vector of name/inode-id entries
//! with pairwise distinct names, which models the name-to-inode mapping
//! of a real directory.

use vstd::prelude::*;

use crate::errors::{FileSystemError, ShellError};
use crate::fs::size::Size;
use vstd::utf8::encode_utf8;

verus! {

/// The payload of a regular file.
pub struct File {
    pub content: String,
}

impl File {
    pub fn new() -> (r: File)
        ensures
            r.content@ == Seq::<char>::empty(),
    {
        File { content: String::new() }
    }
}

/// One directory entry: a child's name and the arena id of its inode.
pub struct DirEntry {
    pub name: String,
    pub inode: usize,
}

/// Whether some entry carries this name.
pub open spec fn contains_name(s: Seq<DirEntry>, name: Seq<char>) -> bool {
    exists|i: int| 0 <= i < s.len() && #[trigger] s[i].name@ == name
}

/// The index of the entry carrying this name; meaningful when the names
/// are unique and the name is present.
pub open spec fn index_of_name(s: Seq<DirEntry>, name: Seq<char>) -> int {
    choose|i: int| 0 <= i < s.len() && #[trigger] s[i].name@ == name
}

/// The entry carrying this name; meaningful when the names are unique
/// and the name is present.
pub open spec fn entry_for(s: Seq<DirEntry>, name: Seq<char>) -> DirEntry {
    s[index_of_name(s, name)]
}

/// No two entries share a name.
pub open spec fn unique_names(s: Seq<DirEntry>) -> bool {
    forall|i: int, j: int| 0 <= i < j < s.len() ==> (#[trigger] s[i].name@) != (#[trigger] s[j].name@)
}

/// The children of a directory inode.
pub struct Directory {
    pub children: Vec<DirEntry>,
}

impl Directory {
    pub fn new() -> (r: Directory)
        ensures
            r.children@ == Seq::<DirEntry>::empty(),
    {
        Directory { children: Vec::new() }
    }

    pub fn is_empty(&self) -> (r: bool)
        ensures
            r == (self.children@.len() == 0),
    {
        self.children.len() == 0
    }

    pub fn contains(&self, name: &str) -> (r: bool)
        ensures
            r == contains_name(self.children@, name@),
    {
        let mut i: usize = 0;
        while i < self.children.len()
            invariant
                i <= self.children@.len(),
                forall|j: int| 0 <= j < i ==> (#[trigger] self.children@[j].name@) != name@,
            decreases self.children@.len() - i,
        {
            if crate::strutil::str_eq(self.children[i].name.as_str(), name) {
                return true;
            }
            i = i + 1;
        }
        false
    }

    /// Adds an entry under a name not yet taken; rejects a duplicate and
    /// leaves the directory unchanged.
    pub fn add_child(&mut self, name: &str, child: usize) -> (r: Result<(), ShellError>)
        ensures
            match r {
                Ok(()) => {
                    &&& !contains_name(old(self).children@, name@)
                    &&& final(self).children@.len() == old(self).children@.len() + 1
                    &&& final(self).children@.drop_last() == old(self).children@
                    &&& final(self).children@.last().name@ == name@
                    &&& final(self).children@.last().inode == child
                },
                Err(e) => {
                    &&& contains_name(old(self).children@, name@)
                    &&& *final(self) == *old(self)
                    &&& e matches ShellError::FileSystem(FileSystemError::EntryAlreadyExists(n))
                        && n@ == name@
                },
            },
    {
        if self.contains(name) {
            return Err(
                ShellError::FileSystem(FileSystemError::EntryAlreadyExists(name.to_owned())),
            );
        }
        self.children.push(DirEntry { name: name.to_owned(), inode: child });
        proof {
            assert(self.children@.drop_last() =~= old(self).children@);
        }
        Ok(())
    }

    /// Detaches the named entry if it is present; a missing name is a
    /// silent no-op.  Does not recurse into the detached child.
    pub fn remove_child(&mut self, name: &str)
        requires
            unique_names(old(self).children@),
        ensures
            !contains_name(final(self).children@, name@),
            !contains_name(old(self).children@, name@) ==> *final(self) == *old(self),
            contains_name(old(self).children@, name@) ==> {
                &&& 0 <= index_of_name(old(self).children@, name@) < old(self).children@.len()
                &&& final(self).children@ == old(self).children@.remove(
                    index_of_name(old(self).children@, name@),
                )
            },
            unique_names(final(self).children@),
    {
        let mut i: usize = 0;
        while i < self.children.len()
            invariant
                *self == *old(self),
                unique_names(self.children@),
                i <= self.children@.len(),
                forall|j: int| 0 <= j < i ==> (#[trigger] self.children@[j].name@) != name@,
            decreases self.children@.len() - i,
        {
            if crate::strutil::str_eq(self.children[i].name.as_str(), name) {
                self.children.remove(i);
                proof {
                    let cs = old(self).children@;
                    assert(self.children@ == cs.remove(i as int));
                    cs.remove_ensures(i as int);
                    assert(cs[i as int].name@ == name@);
                    let j0 = index_of_name(cs, name@);
                    assert(0 <= j0 < cs.len() && cs[j0].name@ == name@);
                    assert(j0 == i) by {
                        if j0 < i {
                            assert(cs[j0].name@ != cs[i as int].name@);
                        } else if j0 > i {
                            assert(cs[i as int].name@ != cs[j0].name@);
                        }
                    }
                    assert forall|a: int|
                        0 <= a < self.children@.len() implies (
                    #[trigger] self.children@[a].name@) != name@ by {
                        if a < i {
                            assert(self.children@[a] == cs[a]);
                            assert(cs[a].name@ != cs[i as int].name@);
                        } else {
                            assert(self.children@[a] == cs[a + 1]);
                            assert(cs[i as int].name@ != cs[a + 1].name@);
                        }
                    }
                    assert forall|a: int, b: int|
                        0 <= a < b < self.children@.len() implies (
                    #[trigger] self.children@[a].name@) != (
                    #[trigger] self.children@[b].name@) by {
                        let a0 = if a < i {
                            a
                        } else {
                            a + 1
                        };
                        let b0 = if b < i {
                            b
                        } else {
                            b + 1
                        };
                        assert(self.children@[a] == cs[a0]);
                        assert(self.children@[b] == cs[b0]);
                        assert(cs[a0].name@ != cs[b0].name@);
                    }
                }
                return ;
            }
            i = i + 1;
        }
    }

    /// The inode id filed under this name, when the name is present.
    pub fn find_child(&self, name: &str) -> (r: Option<usize>)
        requires
            unique_names(self.children@),
        ensures
            match r {
                Some(c) => contains_name(self.children@, name@) && entry_for(
                    self.children@,
                    name@,
                ).inode == c,
                None => !contains_name(self.children@, name@),
            },
    {
        let mut i: usize = 0;
        while i < self.children.len()
            invariant
                unique_names(self.children@),
                i <= self.children@.len(),
                forall|j: int| 0 <= j < i ==> (#[trigger] self.children@[j].name@) != name@,
            decreases self.children@.len() - i,
        {
            if crate::strutil::str_eq(self.children[i].name.as_str(), name) {
                return Some(self.children[i].inode);
            }
            i = i + 1;
        }
        None
    }
}

/// The target of a symbolic link.
pub struct Link {
    pub target_path: String,
}

/// The tagged content of an inode.
pub enum InodeContent {
    File(File),
    Directory(Directory),
    Link(Link),
}

/// The kind of an inode, without its data.
#[derive(Debug, PartialEq, Eq, Structural)]
pub enum InodeType {
    File,
    Directory,
    Link,
}

impl Size for File {
    /// A file's size is its payload's UTF-8 byte length; an empty file
    /// has size zero.
    open spec fn spec_size(&self) -> int {
        encode_utf8(self.content@).len() as usize as int
    }

    fn size(&self) -> u64 {
        self.content.as_str().len() as u64
    }
}

impl Size for Directory {
    /// A directory mimics a Linux directory entry size, even if it is
    /// not the real sum.
    open spec fn spec_size(&self) -> int {
        4096
    }

    fn size(&self) -> u64 {
        4096
    }
}

impl Size for Link {
    /// A link's size is its target path's UTF-8 byte length.
    open spec fn spec_size(&self) -> int {
        encode_utf8(self.target_path@).len() as usize as int
    }

    fn size(&self) -> u64 {
        self.target_path.as_str().len() as u64
    }
}

impl Size for InodeContent {
    /// The size of whatever content the inode holds.
    open spec fn spec_size(&self) -> int {
        match self {
            InodeContent::File(file) => file.spec_size(),
            InodeContent::Directory(directory) => directory.spec_size(),
            InodeContent::Link(link) => link.spec_size(),
        }
    }

    fn size(&self) -> u64 {
        match self {
            InodeContent::File(file) => file.size(),
            InodeContent::Directory(directory) => directory.size(),
            InodeContent::Link(link) => link.size(),
        }
    }
}

} // verus!
