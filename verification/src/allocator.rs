//! The kernel heap's place in the address space.
use vstd::prelude::*;
use crate::paging::{pages_in_range, spec_pages};

verus! {

/// Size of the kernel heap in bytes.
pub const HEAP_SIZE: usize = 102400;
/// First virtual address of the kernel heap (a 64-bit address, whatever
/// the width of `usize` where this is checked).
pub const HEAP_START: u64 = 0x4444_4444_0000;

/// The pages to map for the heap, from the page of its first byte to the
/// page of its last byte.
pub fn heap_pages() -> (r: Vec<u64>)
    ensures
        r@ == spec_pages(HEAP_START as int, HEAP_START + HEAP_SIZE - 1),
        r@.len() == 25,
        r@[0] == HEAP_START,
{
    let r = pages_in_range(HEAP_START, HEAP_SIZE as u64);
    proof {
        assert(crate::paging::spec_page_start(HEAP_START as int) == HEAP_START);
        assert(crate::paging::spec_page_start(HEAP_START + HEAP_SIZE - 1) == HEAP_START + 24 * 4096);
    }
    r
}

} // verus!
