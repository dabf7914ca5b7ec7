//! Providers of the frames behind a mapping: frames for the data, and small frames for the
//! page tables that the mapping needs.
use vstd::prelude::*;
use crate::addr::{Address, PhysAddr};
use crate::arch::PHYSICAL_ADDRESS_MAX;
use crate::managers::{FragmentManager, FullManager};
use crate::mem::MemError;
use crate::primitives::{FragmentSize, Frame, Small};

verus! {

/// A provider of the frames behind a mapping of pages of size `S`.
pub trait MemoryProvider<S: FragmentSize> {
    /// The provider can serve a request for a data frame.
    spec fn data_ok(&self) -> bool;

    /// The provider can serve a request for a page-table frame.
    spec fn table_ok(&self) -> bool;

    /// `after`, with the result `r`, is what a request for a data frame makes of the provider.
    spec fn gives_data(&self, after: &Self, r: Result<Frame<S>, MemError>) -> bool;

    /// `after`, with the result `r`, is what a request for a page-table frame makes of the
    /// provider.
    spec fn gives_table(&self, after: &Self, r: Result<Frame<Small>, MemError>) -> bool;

    /// Provides a frame for the data of one page.
    fn allocate_data(&mut self) -> (r: Result<Frame<S>, MemError>)
        requires
            old(self).data_ok(),
        ensures
            old(self).gives_data(final(self), r),
    ;

    /// Provides a small frame for a page table.
    fn allocate_table(&mut self) -> (r: Result<Frame<Small>, MemError>)
        requires
            old(self).table_ok(),
        ensures
            old(self).gives_table(final(self), r),
    ;
}

/// Provides the frames of a linear range of physical memory, one after the other from the
/// base address, and page-table frames from a frame manager.
#[derive(Debug)]
pub struct PhysLinear<'a, Ta: FragmentManager<Frame<Small>, Small>>(pub PhysAddr, pub &'a mut Ta);

impl<'a, Ta: FragmentManager<Frame<Small>, Small>> PhysLinear<'a, Ta> {
    /// A provider of the frames from `base` on, with page tables from `table_allocator`.
    pub fn new(base: PhysAddr, table_allocator: &'a mut Ta) -> (r: Self)
        ensures
            r.0 == base,
            *r.1 == *old(table_allocator),
            *final(table_allocator) == *final(r.1),
    {
        PhysLinear(base, table_allocator)
    }
}

impl<'a, Ta: FragmentManager<Frame<Small>, Small>, S: FragmentSize> MemoryProvider<S> for PhysLinear<'a, Ta> {
    /// When the base address starts a frame of size `S`, the address after that frame is a
    /// valid physical address.
    open spec fn data_ok(&self) -> bool {
        self.0@ % S::spec_size() == 0 ==> self.0@ + S::spec_size() <= PHYSICAL_ADDRESS_MAX
    }

    open spec fn table_ok(&self) -> bool {
        self.1.manager_ok()
    }

    /// The frame at the base address, with the base moved past it; `InvalidFrameAddress`,
    /// with nothing changed, when the base does not start a frame of size `S`.
    open spec fn gives_data(&self, after: &Self, r: Result<Frame<S>, MemError>) -> bool {
        &&& *after.1 == *self.1
        &&& if self.0@ % S::spec_size() == 0 {
            &&& r matches Ok(f) && f@ == self.0@
            &&& after.0@ == self.0@ + S::spec_size()
        } else {
            &&& r == Err::<Frame<S>, MemError>(MemError::InvalidFrameAddress(self.0))
            &&& after.0 == self.0
        }
    }

    /// A frame from the frame manager; the base stays.
    open spec fn gives_table(&self, after: &Self, r: Result<Frame<Small>, MemError>) -> bool {
        &&& after.0 == self.0
        &&& self.1.hands_out(&*after.1, r)
        &&& after.1.manager_ok()
    }

    fn allocate_data(&mut self) -> (r: Result<Frame<S>, MemError>) {
        let frame = match Frame::<S>::from_start_address(self.0) {
            Some(f) => f,
            None => return Err(MemError::InvalidFrameAddress(self.0)),
        };
        let next = PhysAddr::new(self.0.as_u64() + S::size());
        self.0 = next;
        Ok(frame)
    }

    fn allocate_table(&mut self) -> (r: Result<Frame<Small>, MemError>) {
        self.1.allocate_fragment()
    }
}

/// Provides both the data frames and the page-table frames from one frame manager.
#[derive(Debug)]
pub struct DataAllocator<'a, Ta: FullManager>(pub &'a mut Ta);

impl<'a, Ta: FullManager + FragmentManager<Frame<S>, S>, S: FragmentSize> MemoryProvider<S> for DataAllocator<'a, Ta> {
    open spec fn data_ok(&self) -> bool {
        FragmentManager::<Frame<S>, S>::manager_ok(&*self.0)
    }

    open spec fn table_ok(&self) -> bool {
        FragmentManager::<Frame<Small>, Small>::manager_ok(&*self.0)
    }

    /// A frame of size `S` from the manager.
    open spec fn gives_data(&self, after: &Self, r: Result<Frame<S>, MemError>) -> bool {
        &&& FragmentManager::<Frame<S>, S>::hands_out(&*self.0, &*after.0, r)
        &&& FragmentManager::<Frame<S>, S>::manager_ok(&*after.0)
    }

    /// A small frame from the manager.
    open spec fn gives_table(&self, after: &Self, r: Result<Frame<Small>, MemError>) -> bool {
        &&& FragmentManager::<Frame<Small>, Small>::hands_out(&*self.0, &*after.0, r)
        &&& FragmentManager::<Frame<Small>, Small>::manager_ok(&*after.0)
    }

    fn allocate_data(&mut self) -> (r: Result<Frame<S>, MemError>) {
        FragmentManager::<Frame<S>, S>::allocate_fragment(self.0)
    }

    fn allocate_table(&mut self) -> (r: Result<Frame<Small>, MemError>) {
        FragmentManager::<Frame<Small>, Small>::allocate_fragment(self.0)
    }
}

/// Provides the data frames from one frame manager and the page-table frames from another.
#[derive(Debug, Clone, Copy)]
pub struct DataWithTableAllocator<D: FullManager, T: FragmentManager<Frame<Small>, Small>>(pub D, pub T);

impl<D: FullManager + FragmentManager<Frame<S>, S>, S: FragmentSize, T: FragmentManager<Frame<Small>, Small>> MemoryProvider<S> for DataWithTableAllocator<D, T> {
    open spec fn data_ok(&self) -> bool {
        FragmentManager::<Frame<S>, S>::manager_ok(&self.0)
    }

    open spec fn table_ok(&self) -> bool {
        self.1.manager_ok()
    }

    /// A frame of size `S` from the data manager; the table manager stays.
    open spec fn gives_data(&self, after: &Self, r: Result<Frame<S>, MemError>) -> bool {
        &&& FragmentManager::<Frame<S>, S>::hands_out(&self.0, &after.0, r)
        &&& FragmentManager::<Frame<S>, S>::manager_ok(&after.0)
        &&& after.1 == self.1
    }

    /// A small frame from the table manager; the data manager stays.
    open spec fn gives_table(&self, after: &Self, r: Result<Frame<Small>, MemError>) -> bool {
        &&& self.1.hands_out(&after.1, r)
        &&& after.1.manager_ok()
        &&& after.0 == self.0
    }

    fn allocate_data(&mut self) -> (r: Result<Frame<S>, MemError>) {
        FragmentManager::<Frame<S>, S>::allocate_fragment(&mut self.0)
    }

    fn allocate_table(&mut self) -> (r: Result<Frame<Small>, MemError>) {
        self.1.allocate_fragment()
    }
}

} // verus!
