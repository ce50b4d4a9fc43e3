//! Access to the memory of a plane.
//!
//! The system calls are the caller's. What they are given, and what becomes of
//! their results, is decided here. A failed call is known by its error number.

use crate::allocator::dmabuf::buffer::Dmabuf;
use crate::allocator::flags::{DmabufMappingMode, DmabufSyncFlags};
use vstd::prelude::*;

verus! {

/// Errors of mapping a plane.
#[derive(Clone, Copy, Debug, PartialEq, Eq, Structural)]
pub enum DmabufMappingFailed {
    /// The supplied index for the plane is out of bounds.
    PlaneIndexOutOfBound,
    /// A system call failed with this error number.
    Io(i32),
}

/// Errors of synchronizing access to a plane.
#[derive(Clone, Copy, Debug, PartialEq, Eq, Structural)]
pub enum DmabufSyncFailed {
    /// The supplied index for the plane is out of bounds.
    PlaneIndexOutOfBound,
    /// A system call failed with this error number.
    Io(i32),
}

/// What may be done with mapped memory.
#[derive(Clone, Copy, Debug, PartialEq, Eq, Structural)]
pub struct MapProtection {
    /// It can be read.
    pub read: bool,
    /// It can be written.
    pub write: bool,
}

/// The access that `mode` asks for.
pub open spec fn protection_for(mode: DmabufMappingMode) -> MapProtection {
    MapProtection {
        read: mode.bits & DmabufMappingMode::READ == DmabufMappingMode::READ,
        write: mode.bits & DmabufMappingMode::WRITE == DmabufMappingMode::WRITE,
    }
}

impl From<DmabufMappingMode> for MapProtection {
    fn from(mode: DmabufMappingMode) -> (protection: MapProtection) {
        let mut protection = MapProtection { read: false, write: false };
        if mode.contains(DmabufMappingMode::READ) {
            protection.read = true;
        }
        if mode.contains(DmabufMappingMode::WRITE) {
            protection.write = true;
        }
        protection
    }
}

impl vstd::std_specs::convert::FromSpecImpl<DmabufMappingMode> for MapProtection {
    open spec fn obeys_from_spec() -> bool {
        true
    }

    open spec fn from_spec(mode: DmabufMappingMode) -> MapProtection {
        protection_for(mode)
    }
}

/// How to map a plane.
pub struct PlaneMapping<'a, F> {
    /// The file descriptor.
    pub fd: &'a F,
    /// Where in the file the plane starts.
    pub offset: u32,
    /// What may be done with the memory.
    pub protection: MapProtection,
}

/// How to synchronize access to a plane.
pub struct PlaneSync<'a, F> {
    /// The file descriptor.
    pub fd: &'a F,
    /// The flags of the call.
    pub flags: DmabufSyncFlags,
}

impl<F> Dmabuf<F> {
    /// How to map the plane at the position `idx`.
    ///
    /// Fails if there is no such plane.
    pub fn map_plane(&self, idx: usize, mode: DmabufMappingMode) -> (mapping: Result<
        PlaneMapping<'_, F>,
        DmabufMappingFailed,
    >)
        ensures
            match mapping {
                Ok(mapping) => {
                    &&& idx < self@.buffer.planes.len()
                    &&& *mapping.fd == self@.buffer.planes[idx as int].fd
                    &&& mapping.offset == self@.buffer.planes[idx as int].offset
                    &&& mapping.protection == protection_for(mode)
                    &&& mapping.protection.read <==> mode.bits % 2 == 1
                    &&& mapping.protection.write <==> (mode.bits / 2) % 2 == 1
                },
                Err(error) => {
                    &&& idx >= self@.buffer.planes.len()
                    &&& error == DmabufMappingFailed::PlaneIndexOutOfBound
                },
            },
    {
        proof {
            law_the_lowest_bits_are_the_access(mode);
        }
        match self.plane(idx) {
            Some(plane) => Ok(
                PlaneMapping {
                    fd: &plane.fd,
                    offset: plane.offset,
                    protection: MapProtection::from(mode),
                },
            ),
            None => Err(DmabufMappingFailed::PlaneIndexOutOfBound),
        }
    }

    /// How to synchronize access to the plane at the position `idx`.
    ///
    /// Fails if there is no such plane.
    pub fn sync_plane(&self, idx: usize, flags: DmabufSyncFlags) -> (sync: Result<
        PlaneSync<'_, F>,
        DmabufSyncFailed,
    >)
        ensures
            match sync {
                Ok(sync) => {
                    &&& idx < self@.buffer.planes.len()
                    &&& *sync.fd == self@.buffer.planes[idx as int].fd
                    &&& sync.flags == flags
                },
                Err(error) => {
                    &&& idx >= self@.buffer.planes.len()
                    &&& error == DmabufSyncFailed::PlaneIndexOutOfBound
                },
            },
    {
        match self.plane(idx) {
            Some(plane) => Ok(PlaneSync { fd: &plane.fd, flags }),
            None => Err(DmabufSyncFailed::PlaneIndexOutOfBound),
        }
    }
}

impl<'a, F> PlaneMapping<'a, F> {
    /// How much to map, from the end of the file and from the result of seeking
    /// back to its start: everything from the offset of the plane on.
    pub fn length(&self, end: Result<u64, i32>, rewound: Result<u64, i32>) -> (length: Result<
        usize,
        DmabufMappingFailed,
    >)
        requires
            end matches Ok(size) ==> rewound is Ok ==> self.offset <= size,
        ensures
            length == match (end, rewound) {
                (Err(errno), _) => Err::<usize, _>(DmabufMappingFailed::Io(errno)),
                (Ok(_), Err(errno)) => Err(DmabufMappingFailed::Io(errno)),
                (Ok(size), Ok(_)) => Ok((size - self.offset) as usize),
            },
            match (end, rewound) {
                (Ok(size), Ok(_)) => size - self.offset <= usize::MAX ==> {
                    length matches Ok(length) && self.offset + length == size
                },
                _ => length is Err,
            },
    {
        match end {
            Err(errno) => Err(DmabufMappingFailed::Io(errno)),
            Ok(size) => match rewound {
                Err(errno) => Err(DmabufMappingFailed::Io(errno)),
                Ok(_) => Ok((size - self.offset as u64) as usize),
            },
        }
    }
}

impl<'a, F> PlaneSync<'a, F> {
    /// What the call has come to.
    pub fn outcome(&self, called: Result<(), i32>) -> (outcome: Result<(), DmabufSyncFailed>)
        ensures
            outcome == match called {
                Ok(()) => Ok::<(), DmabufSyncFailed>(()),
                Err(errno) => Err(DmabufSyncFailed::Io(errno)),
            },
    {
        match called {
            Ok(()) => Ok(()),
            Err(errno) => Err(DmabufSyncFailed::Io(errno)),
        }
    }
}

/// Mapped memory of a plane, by its address.
#[derive(Debug, PartialEq, Eq, Structural)]
pub struct DmabufMapping {
    ptr: usize,
    len: usize,
}

impl DmabufMapping {
    /// The address of the memory.
    pub closed spec fn address(self) -> usize {
        self.ptr
    }

    /// The number of bytes.
    pub closed spec fn extent(self) -> usize {
        self.len
    }

    /// The mapping of `len` bytes that a call has come to.
    pub fn mapped(called: Result<usize, i32>, len: usize) -> (mapping: Result<
        DmabufMapping,
        DmabufMappingFailed,
    >)
        ensures
            match called {
                Ok(address) => mapping matches Ok(mapping) && mapping.address() == address
                    && mapping.extent() == len,
                Err(errno) => mapping == Err::<DmabufMapping, _>(DmabufMappingFailed::Io(errno)),
            },
    {
        match called {
            Ok(ptr) => Ok(DmabufMapping { ptr, len }),
            Err(errno) => Err(DmabufMappingFailed::Io(errno)),
        }
    }

    /// The address of the memory.
    pub fn ptr(&self) -> (address: usize)
        ensures
            address == self.address(),
    {
        self.ptr
    }

    /// The number of bytes.
    pub fn length(&self) -> (length: usize)
        ensures
            length == self.extent(),
    {
        self.len
    }
}

/// Memory can be read exactly if the lowest bit of the mode is set, and written exactly if
/// the next one is; other bits play no part.
pub proof fn law_the_lowest_bits_are_the_access(mode: DmabufMappingMode)
    ensures
        protection_for(mode).read <==> mode.bits % 2 == 1,
        protection_for(mode).write <==> (mode.bits / 2) % 2 == 1,
        <MapProtection as vstd::std_specs::convert::FromSpec<DmabufMappingMode>>::from_spec(mode)
            == protection_for(mode),
{
    let bits = mode.bits;
    assert(bits & 1 == 1 <==> bits % 2 == 1) by (bit_vector);
    assert(bits & 2 == 2 <==> (bits / 2) % 2 == 1) by (bit_vector);
}

} // verus!
