use vstd::prelude::*;

verus! {

/// How long the contents of a buffer have to survive.
#[derive(Clone, Copy, Debug, PartialEq, Eq, Hash, Structural)]
pub enum MemoryCategory {
    /// The buffer keeps its identity and contents for the whole life of the pipeline.
    Persistent,
    /// Scratch space that only matters to the stages that declare it; it may share
    /// storage with other scratch buffers that are never alive at the same time.
    Transient,
}

/// One way in which a buffer may be used.
#[derive(Clone, Copy, Debug, PartialEq, Eq, Hash, Structural)]
pub enum UsageFlag {
    MapRead,
    MapWrite,
    CopySrc,
    CopyDst,
    Storage,
}

/// The set of ways in which a buffer may be used.
#[derive(Clone, Copy, Debug, PartialEq, Eq, Hash, Structural)]
pub struct Usage {
    pub map_read: bool,
    pub map_write: bool,
    pub copy_src: bool,
    pub copy_dst: bool,
    pub storage: bool,
}

/// The bit of the GPU interface for a buffer that the host can map for reading.
pub const MAP_READ_BIT: u32 = 1;

/// The bit of the GPU interface for a buffer that the host can map for writing.
pub const MAP_WRITE_BIT: u32 = 2;

/// The bit of the GPU interface for a buffer that can be copied from.
pub const COPY_SRC_BIT: u32 = 4;

/// The bit of the GPU interface for a buffer that can be copied to.
pub const COPY_DST_BIT: u32 = 8;

/// The bit of the GPU interface for a buffer that shaders can read and write.
pub const STORAGE_BIT: u32 = 128;

impl Usage {
    /// Whether the set holds `flag`.
    pub open spec fn has(&self, flag: UsageFlag) -> bool {
        match flag {
            UsageFlag::MapRead => self.map_read,
            UsageFlag::MapWrite => self.map_write,
            UsageFlag::CopySrc => self.copy_src,
            UsageFlag::CopyDst => self.copy_dst,
            UsageFlag::Storage => self.storage,
        }
    }

    /// The set that holds exactly the flags of either operand.
    pub open spec fn spec_union(&self, other: Usage) -> Usage {
        Usage {
            map_read: self.map_read || other.map_read,
            map_write: self.map_write || other.map_write,
            copy_src: self.copy_src || other.copy_src,
            copy_dst: self.copy_dst || other.copy_dst,
            storage: self.storage || other.storage,
        }
    }

    /// The value of the bit mask in which every flag has the bit the GPU interface
    /// gives it.
    pub open spec fn spec_bits(&self) -> int {
        (if self.map_read { 1int } else { 0 })
            + (if self.map_write { 2int } else { 0 })
            + (if self.copy_src { 4int } else { 0 })
            + (if self.copy_dst { 8int } else { 0 })
            + (if self.storage { 128int } else { 0 })
    }

    /// The set without any flag.
    pub fn empty() -> (usage: Usage)
        ensures
            forall|flag: UsageFlag| !usage.has(flag),
    {
        Usage { map_read: false, map_write: false, copy_src: false, copy_dst: false, storage: false }
    }

    /// Whether the set holds `flag`.
    pub fn contains(&self, flag: UsageFlag) -> (held: bool)
        ensures
            held == self.has(flag),
    {
        match flag {
            UsageFlag::MapRead => self.map_read,
            UsageFlag::MapWrite => self.map_write,
            UsageFlag::CopySrc => self.copy_src,
            UsageFlag::CopyDst => self.copy_dst,
            UsageFlag::Storage => self.storage,
        }
    }

    /// The set of the flags of either operand.
    pub fn union(&self, other: Usage) -> (both: Usage)
        ensures
            both == self.spec_union(other),
            forall|flag: UsageFlag| both.has(flag) == (self.has(flag) || other.has(flag)),
    {
        Usage {
            map_read: self.map_read || other.map_read,
            map_write: self.map_write || other.map_write,
            copy_src: self.copy_src || other.copy_src,
            copy_dst: self.copy_dst || other.copy_dst,
            storage: self.storage || other.storage,
        }
    }

    /// The bit mask of the set.
    pub fn bits(&self) -> (mask: u32)
        ensures
            mask == self.spec_bits(),
    {
        let mut mask: u32 = 0;
        if self.map_read {
            mask = mask + MAP_READ_BIT;
        }
        if self.map_write {
            mask = mask + MAP_WRITE_BIT;
        }
        if self.copy_src {
            mask = mask + COPY_SRC_BIT;
        }
        if self.copy_dst {
            mask = mask + COPY_DST_BIT;
        }
        if self.storage {
            mask = mask + STORAGE_BIT;
        }
        mask
    }
}

/// Two usage sets that hold the same flags are the same set.
pub proof fn lemma_usage_extensional(a: Usage, b: Usage)
    requires
        forall|flag: UsageFlag| a.has(flag) == b.has(flag),
    ensures
        a == b,
{
    assert(a.has(UsageFlag::MapRead) == b.has(UsageFlag::MapRead));
    assert(a.has(UsageFlag::MapWrite) == b.has(UsageFlag::MapWrite));
    assert(a.has(UsageFlag::CopySrc) == b.has(UsageFlag::CopySrc));
    assert(a.has(UsageFlag::CopyDst) == b.has(UsageFlag::CopyDst));
    assert(a.has(UsageFlag::Storage) == b.has(UsageFlag::Storage));
}

/// The logical buffers of the image pipeline.
#[derive(Hash, Clone, Copy, PartialEq, Eq, Debug, Structural)]
pub enum Buffers {
    Raw,
    TempMean,
    Mean,
    BlackLevel,
    AutoWhiteBalance,
    RGB,
}

/// What a stage declares of a buffer it needs.
#[derive(Clone, Copy, Debug, PartialEq, Eq, Hash, Structural)]
pub struct BufferDescriptor {
    pub name: Buffers,
    pub category: MemoryCategory,
    pub usage: Usage,
    pub size: u64,
}

} // verus!
