//! The nodes of the file system, as far as the kernel core names them.

use vstd::prelude::*;

verus! {

pub type NodeId = usize;

pub const ROOT_ID: NodeId = 1;

#[derive(Debug, Clone, Copy, PartialEq, Eq, Structural)]
pub enum NodeType {
    Dir,
    File,
    SymLink,
}

/// A file on disk.
#[derive(Debug, Clone, Copy, PartialEq, Eq, Structural)]
pub struct Node {
    pub typ: NodeType,
    pub ino: NodeId,
    pub size: u64,
}

pub enum FileType {
    Null,
    Node,
    Pipe,
}

/// An open file.
pub trait File {
    fn get_node(&self) -> &Node
    ;
}

pub trait FileSystem {

}

} // verus!
