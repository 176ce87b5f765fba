//! Which 4 KiB pages cover a range of virtual addresses (pages found by
//! `x86_64`'s `Page::containing_address`).
use vstd::prelude::*;
use x86_64::structures::paging::{Page, Size4KiB};
use x86_64::VirtAddr;

verus! {

/// The size of a page.
pub const PAGE_SIZE: u64 = 4096;

/// First address of the upper half of the 48-bit address space (bit 47 set).
pub const HALF_BIT: u64 = 0x8000_0000_0000;
/// First address above the 48 bits.
pub const ADDR_LIMIT: u64 = 0x1_0000_0000_0000;
/// First canonical address of the upper half.
pub const UPPER_START: u64 = 0xFFFF_8000_0000_0000;
/// The bits that sign extension sets.
pub const SIGN_BITS: u64 = 0xFFFF_0000_0000_0000;

/// `VirtAddr::new` accepts `addr`: bits 48 to 63 are all clear, or all
/// set together with bit 47.
pub open spec fn addr_accepted(addr: int) -> bool {
    (0 <= addr < ADDR_LIMIT) || (UPPER_START <= addr <= u64::MAX)
}

/// The canonical form of an accepted address: bit 47 copied into bits 48 to 63.
pub open spec fn canonical(addr: int) -> int {
    if HALF_BIT <= addr < ADDR_LIMIT {
        addr + SIGN_BITS
    } else {
        addr
    }
}

/// The start of the page that holds `addr`.
pub open spec fn spec_page_start(addr: int) -> int {
    canonical(addr) - canonical(addr) % (PAGE_SIZE as int)
}

/// Calls `Page::<Size4KiB>::containing_address(VirtAddr::new(addr))` and
/// gives the page's start address. The crate documents `VirtAddr::new` as
/// sign-extending bit 47 (and panicking when bits 48 to 63 hold other
/// data) and `containing_address` as aligning down to the page size.
#[verifier::external_body]
fn page_start_containing(addr: u64) -> (r: u64)
    requires
        addr_accepted(addr as int),
    ensures
        r == spec_page_start(addr as int),
{
    Page::<Size4KiB>::containing_address(VirtAddr::new(addr)).start_address().as_u64()
}

/// `[first, last]` lies in one half of the address space, so that walking
/// its pages never leaves the canonical addresses.
pub open spec fn range_in_one_half(first: int, last: int) -> bool {
    ||| (0 <= first <= last && last < HALF_BIT)
    ||| (HALF_BIT <= first <= last && last < ADDR_LIMIT)
    ||| (UPPER_START <= first <= last && last <= u64::MAX)
}

/// The page start addresses from the page of `first` to the page of `last`.
pub open spec fn spec_pages(first: int, last: int) -> Seq<u64> {
    let s = spec_page_start(first);
    let n = (spec_page_start(last) - s) / (PAGE_SIZE as int) + 1;
    Seq::new(n as nat, |i: int| (s + i * PAGE_SIZE) as u64)
}

/// The start addresses of the pages that `[base, base + size)` touches, in
/// increasing order.
pub fn pages_in_range(base: u64, size: u64) -> (r: Vec<u64>)
    requires
        size >= 1,
        base + size - 1 <= u64::MAX,
        range_in_one_half(base as int, base + size - 1),
    ensures
        r@ == spec_pages(base as int, base + size - 1),
        r@.len() >= 1,
        forall|i: int| 0 <= i < r@.len() ==> #[trigger] r@[i] % PAGE_SIZE == 0,
{
    let last = base + (size - 1);
    let start = page_start_containing(base);
    let end = page_start_containing(last);
    proof {
        assert(start <= end);
        assert(start % 4096 == 0);
        assert(end % 4096 == 0);
    }
    let count: u64 = (end - start) / PAGE_SIZE + 1;
    let ghost want = spec_pages(base as int, last as int);
    let mut pages: Vec<u64> = Vec::new();
    let mut i: u64 = 0;
    while i < count
        invariant
            i <= count,
            count == (end - start) / 4096 + 1,
            start <= end,
            start % 4096 == 0,
            end % 4096 == 0,
            want.len() == count,
            want == spec_pages(base as int, last as int),
            start == spec_page_start(base as int),
            end == spec_page_start(last as int),
            pages@ == want.subrange(0, i as int),
        decreases count - i,
    {
        assert(i * 4096 <= end - start) by (nonlinear_arith)
            requires
                i < (end - start) / 4096 + 1,
                (end - start) % 4096 == 0,
                end >= start,
        ;
        let p = start + i * PAGE_SIZE;
        pages.push(p);
        i = i + 1;
        assert(pages@ =~= want.subrange(0, i as int));
    }
    assert(pages@ =~= want);
    assert forall|k: int| 0 <= k < pages@.len() implies #[trigger] pages@[k] % PAGE_SIZE == 0 by {
        assert((start + k * 4096) % 4096 == 0) by (nonlinear_arith)
            requires
                start % 4096 == 0,
                0 <= k,
        ;
    }
    pages
}

proof fn lemma_align_down_monotone(x: int, y: int)
    requires
        0 <= y <= x,
    ensures
        y - y % 4096 <= x - x % 4096,
        ((x - x % 4096) - (y - y % 4096)) % 4096 == 0,
{
    assert(y - y % 4096 == (y / 4096) * 4096);
    assert(x - x % 4096 == (x / 4096) * 4096);
    assert(y / 4096 <= x / 4096) by (nonlinear_arith)
        requires
            0 <= y <= x,
    ;
    assert((x / 4096) * 4096 - (y / 4096) * 4096 == (x / 4096 - y / 4096) * 4096) by (nonlinear_arith);
    assert(((x / 4096 - y / 4096) * 4096) % 4096 == 0) by (nonlinear_arith);
}

/// Every address of a range lies in one of the pages listed for it: the
/// page that holds it is among them, at the position its distance from
/// the first page gives.
pub proof fn lemma_pages_cover(first: int, last: int, a: int)
    requires
        range_in_one_half(first, last),
        first <= a <= last,
    ensures
        ({
            let ps = spec_pages(first, last);
            let i = (spec_page_start(a) - spec_page_start(first)) / (PAGE_SIZE as int);
            &&& 0 <= i < ps.len()
            &&& ps[i] == spec_page_start(a)
            &&& spec_page_start(a) <= canonical(a) < spec_page_start(a) + PAGE_SIZE
        }),
{
    let cf = canonical(first);
    let ca = canonical(a);
    let cl = canonical(last);
    assert(0 <= cf <= ca <= cl);
    lemma_align_down_monotone(ca, cf);
    lemma_align_down_monotone(cl, ca);
    lemma_align_down_monotone(cl, cf);
    let s = spec_page_start(first);
    let pa = spec_page_start(a);
    let pl = spec_page_start(last);
    let i = (pa - s) / 4096;
    assert(pa - s == i * 4096);
    assert(pl - s == ((pl - s) / 4096) * 4096);
    assert(i <= (pl - s) / 4096) by (nonlinear_arith)
        requires
            pa - s == i * 4096,
            pl - s == ((pl - s) / 4096) * 4096,
            pa <= pl,
    ;
    assert(0 <= i) by (nonlinear_arith)
        requires
            pa - s == i * 4096,
            s <= pa,
    ;
    assert(spec_pages(first, last)[i] == (s + i * 4096) as u64);
}

} // verus!
