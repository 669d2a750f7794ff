//! Rows of the three tables of a layered filesystem: layers, inodes and
//! blocks, with their mathematical views.
use vstd::prelude::*;

verus! {

/// One layer of the stack. A higher `priority` shadows a lower one.
#[derive(Debug, Clone)]
pub struct Layer {
    pub layer_id: String,
    pub parent_layer_id: Option<String>,
    pub priority: i32,
    pub is_readonly: bool,
    pub created_at: String,
}

/// The metadata of one file, directory or tombstone, as stored in one layer.
#[derive(Debug, Clone)]
pub struct Inode {
    pub inode_id: u64,
    pub layer_id: String,
    pub parent_id: u64,
    pub name: String,
    /// "file", "dir", "symlink" or "tombstone".
    pub file_type: String,
    pub size: u64,
    pub permissions: u16,
    pub mtime: String,
    pub semantic_summary: Option<String>,
}

/// The bytes of one block of one file, as stored in one layer.
#[derive(Debug, Clone)]
pub struct Block {
    pub inode_id: u64,
    pub layer_id: String,
    pub block_index: i64,
    pub data: Vec<u8>,
}

pub struct LayerView {
    pub layer_id: Seq<char>,
    pub parent_layer_id: Option<Seq<char>>,
    pub priority: i32,
    pub is_readonly: bool,
    pub created_at: Seq<char>,
}

pub struct InodeView {
    pub inode_id: u64,
    pub layer_id: Seq<char>,
    pub parent_id: u64,
    pub name: Seq<char>,
    pub file_type: Seq<char>,
    pub size: u64,
    pub permissions: u16,
    pub mtime: Seq<char>,
    pub semantic_summary: Option<Seq<char>>,
}

pub struct BlockView {
    pub inode_id: u64,
    pub layer_id: Seq<char>,
    pub block_index: i64,
    pub data: Seq<u8>,
}

pub open spec fn opt_view(o: Option<String>) -> Option<Seq<char>> {
    match o {
        Some(s) => Some(s@),
        None => None,
    }
}

impl View for Layer {
    type V = LayerView;

    open spec fn view(&self) -> LayerView {
        LayerView {
            layer_id: self.layer_id@,
            parent_layer_id: opt_view(self.parent_layer_id),
            priority: self.priority,
            is_readonly: self.is_readonly,
            created_at: self.created_at@,
        }
    }
}

impl View for Inode {
    type V = InodeView;

    open spec fn view(&self) -> InodeView {
        InodeView {
            inode_id: self.inode_id,
            layer_id: self.layer_id@,
            parent_id: self.parent_id,
            name: self.name@,
            file_type: self.file_type@,
            size: self.size,
            permissions: self.permissions,
            mtime: self.mtime@,
            semantic_summary: opt_view(self.semantic_summary),
        }
    }
}

impl View for Block {
    type V = BlockView;

    open spec fn view(&self) -> BlockView {
        BlockView {
            inode_id: self.inode_id,
            layer_id: self.layer_id@,
            block_index: self.block_index,
            data: self.data@,
        }
    }
}

/// A copy of an optional string.
pub fn copy_opt_string(o: &Option<String>) -> (r: Option<String>)
    ensures
        opt_view(r) == opt_view(*o),
{
    match o {
        Some(s) => Some(s.clone()),
        None => None,
    }
}

impl Layer {
    /// A copy of this row.
    pub fn copy(&self) -> (r: Layer)
        ensures
            r@ == self@,
    {
        Layer {
            layer_id: self.layer_id.clone(),
            parent_layer_id: copy_opt_string(&self.parent_layer_id),
            priority: self.priority,
            is_readonly: self.is_readonly,
            created_at: self.created_at.clone(),
        }
    }
}

impl Inode {
    /// A copy of this row.
    pub fn copy(&self) -> (r: Inode)
        ensures
            r@ == self@,
    {
        Inode {
            inode_id: self.inode_id,
            layer_id: self.layer_id.clone(),
            parent_id: self.parent_id,
            name: self.name.clone(),
            file_type: self.file_type.clone(),
            size: self.size,
            permissions: self.permissions,
            mtime: self.mtime.clone(),
            semantic_summary: copy_opt_string(&self.semantic_summary),
        }
    }
}

impl Block {
    /// A copy of this row.
    pub fn copy(&self) -> (r: Block)
        ensures
            r@ == self@,
    {
        Block {
            inode_id: self.inode_id,
            layer_id: self.layer_id.clone(),
            block_index: self.block_index,
            data: self.data.clone(),
        }
    }
}

} // verus!
