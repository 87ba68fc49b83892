//! One node of the filesystem tree.
//!
//! Inodes live in the arena owned by the
//! [`FileSystem`](crate::fs::FileSystem); an inode points at its parent,
//! and a directory inode points at its children, by arena id.

use vstd::prelude::*;

use crate::errors::ShellError;
use crate::fs::content::{contains_name, entry_for, unique_names, InodeContent, InodeType};
use crate::fs::metadata::InodeMetadata;

verus! {

/// One filesystem entry: name, content, metadata, and the arena id of
/// the containing directory (absent only for the root).
pub struct Inode {
    pub name: String,
    pub content: InodeContent,
    pub metadata: InodeMetadata,
    pub parent: Option<usize>,
}

impl Inode {
    /// The inode id this node's directory content files under `name`,
    /// or `None` when this is not a directory or the name is absent.
    pub open spec fn child_id(self, name: Seq<char>) -> Option<int> {
        match self.content {
            InodeContent::Directory(d) => if contains_name(d.children@, name) {
                Some(entry_for(d.children@, name).inode as int)
            } else {
                None
            },
            _ => None,
        }
    }

    /// Whether this node's children (when it is a directory) carry
    /// pairwise distinct names.
    pub open spec fn children_unique(self) -> bool {
        match self.content {
            InodeContent::Directory(d) => unique_names(d.children@),
            _ => true,
        }
    }

    /// Creates a new inode.  A non-root inode (one with a parent) must
    /// carry a non-empty name.
    pub fn new(
        name: String,
        content: InodeContent,
        metadata: InodeMetadata,
        parent: Option<usize>,
    ) -> (r: Result<Inode, ShellError>)
        ensures
            match r {
                Ok(inode) => {
                    &&& !(name@.len() == 0 && parent is Some)
                    &&& inode.name == name
                    &&& inode.content == content
                    &&& inode.metadata == metadata
                    &&& inode.parent == parent
                },
                Err(e) => {
                    &&& name@.len() == 0 && parent is Some
                    &&& e matches ShellError::Internal(_)
                },
            },
    {
        if name.as_str().is_empty() && parent.is_some() {
            return Err(
                ShellError::Internal(
                    "Cannot create an inode with an empty name and a parent".to_owned(),
                ),
            );
        }
        Ok(Inode { name, content, metadata, parent })
    }

    /// The inode id of the named child, or `None` when this inode is not
    /// a directory or holds no child of that name.
    pub fn find_child(&self, child_name: &str) -> (r: Option<usize>)
        requires
            self.children_unique(),
        ensures
            match r {
                Some(c) => self.child_id(child_name@) == Some(c as int),
                None => self.child_id(child_name@) is None,
            },
    {
        match &self.content {
            InodeContent::Directory(directory) => directory.find_child(child_name),
            _ => None,
        }
    }

    /// The kind of this inode.
    pub fn inode_type(&self) -> (r: InodeType)
        ensures
            match self.content {
                InodeContent::File(_) => r == InodeType::File,
                InodeContent::Directory(_) => r == InodeType::Directory,
                InodeContent::Link(_) => r == InodeType::Link,
            },
    {
        match &self.content {
            InodeContent::File(_) => InodeType::File,
            InodeContent::Directory(_) => InodeType::Directory,
            InodeContent::Link(_) => InodeType::Link,
        }
    }
}

} // verus!
