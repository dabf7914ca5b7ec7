//! A verified memory-management core: address and page primitives, bitmap
//! allocators, the boot-time memory-map walker, page-table index arithmetic,
//! plus the metadata resolver and PCI id parser that ship alongside it.
use vstd::prelude::*;

pub mod arch;
pub mod addr;
pub mod bits;
pub mod align;
pub mod bitptr;
pub mod bitmap;
pub mod alloc_state;
pub mod primitives;
pub mod index;
pub mod accessor;
pub mod meta;
pub mod resolve;
pub mod pci;
pub mod fragment;
pub mod mem;
pub mod table;
pub mod walker;
pub mod managers;
pub mod kernel_map;
pub mod provider;
pub mod translate;
