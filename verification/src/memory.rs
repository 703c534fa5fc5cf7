//! Memory pools and the views that clients cut out of them.
//!
//! The library keeps no bytes. A pool stands for a piece of backing storage, which is named
//! by a number; a view describes a picture inside that storage. Storage is in use as long
//! as a pool or a view names it.

use vstd::prelude::*;

verus! {

/// The name of a piece of backing storage.
#[derive(Clone, Copy, Debug, PartialEq, Eq, Structural, Hash)]
pub struct StorageId {
    pub value: u64,
}

/// The two kinds of storage a pool can stand for.
#[derive(Clone, Copy, Debug, PartialEq, Eq, Structural)]
pub enum StorageKind {
    /// Memory that a client shares with the compositor.
    Mapped,
    /// A buffer that the compositor owns.
    Buffer,
}

/// A pool: the storage it stands for, and of which kind that storage is.
#[derive(Clone, Copy, Debug, PartialEq, Eq, Structural)]
pub struct MemoryPool {
    pub storage: StorageId,
    pub kind: StorageKind,
}

/// A picture inside a pool's storage: where it starts, its width and height in pixels and
/// the number of bytes from one row to the next.
#[derive(Clone, Copy, Debug, PartialEq, Eq, Structural)]
pub struct MemoryView {
    pub storage: StorageId,
    pub offset: usize,
    pub width: usize,
    pub height: usize,
    pub stride: usize,
}

impl MemoryPool {
    /// Pool over shared memory that is kept under the name `storage`.
    pub fn new_from_mapped_memory(storage: StorageId) -> (pool: MemoryPool)
        ensures
            pool == (MemoryPool { storage, kind: StorageKind::Mapped }),
    {
        MemoryPool { storage, kind: StorageKind::Mapped }
    }

    /// Pool over a buffer that is kept under the name `storage`.
    pub fn new_from_buffer(storage: StorageId) -> (pool: MemoryPool)
        ensures
            pool == (MemoryPool { storage, kind: StorageKind::Buffer }),
    {
        MemoryPool { storage, kind: StorageKind::Buffer }
    }

    /// The view of this pool's storage with the given place and shape.
    pub fn get_memory_view(&self, offset: usize, width: usize, height: usize, stride: usize) -> (view:
        MemoryView)
        ensures
            view == (MemoryView { storage: self.storage, offset, width, height, stride }),
    {
        MemoryView { storage: self.storage, offset, width, height, stride }
    }
}

impl MemoryView {
    pub fn get_width(&self) -> (width: usize)
        ensures
            width == self.width,
    {
        self.width
    }

    pub fn get_height(&self) -> (height: usize)
        ensures
            height == self.height,
    {
        self.height
    }

    pub fn get_stride(&self) -> (stride: usize)
        ensures
            stride == self.stride,
    {
        self.stride
    }
}

} // verus!
