//! Region resolution: find the first catalog region that fully contains a
//! section's address interval, honoring the flash-capacity override.

use crate::catalog::{region_wf, spec_end, MemoryRegion, RegionModel};
use crate::flash::FlashSize;
use vstd::prelude::*;

verus! {

/// The models of a list of regions.
pub open spec fn regions_view(rs: Seq<MemoryRegion>) -> Seq<RegionModel> {
    rs.map_values(|r: MemoryRegion| r@)
}

/// Whether the region fully contains the interval `[addr, addr + size]` for
/// the supplied flash capacity.
pub open spec fn region_contains(
    r: RegionModel,
    flash_size: Option<FlashSize>,
    addr: int,
    size: int,
) -> bool {
    r.start <= addr && addr + size <= spec_end(r, flash_size)
}

/// The index of the first region containing the interval, in declaration
/// order; `None` when no region contains it.
pub open spec fn spec_resolve(
    rs: Seq<RegionModel>,
    flash_size: Option<FlashSize>,
    addr: int,
    size: int,
) -> Option<int>
    decreases rs.len(),
{
    if rs.len() == 0 {
        None
    } else if region_contains(rs[0], flash_size, addr, size) {
        Some(0)
    } else {
        match spec_resolve(rs.drop_first(), flash_size, addr, size) {
            Some(i) => Some(i + 1),
            None => None,
        }
    }
}

/// `spec_resolve` is first-match resolution: a returned index points at a
/// containing region with no containing region before it, and `None` means no
/// region of the list contains the interval.
pub proof fn lemma_resolve_first_match(
    rs: Seq<RegionModel>,
    flash_size: Option<FlashSize>,
    addr: int,
    size: int,
)
    ensures
        match spec_resolve(rs, flash_size, addr, size) {
            Some(i) => {
                &&& 0 <= i < rs.len()
                &&& region_contains(rs[i], flash_size, addr, size)
                &&& forall|j: int|
                    0 <= j < i ==> !region_contains(#[trigger] rs[j], flash_size, addr, size)
            },
            None => forall|j: int|
                0 <= j < rs.len() ==> !region_contains(#[trigger] rs[j], flash_size, addr, size),
        },
    decreases rs.len(),
{
    if rs.len() > 0 {
        let rest = rs.drop_first();
        lemma_resolve_first_match(rest, flash_size, addr, size);
        if !region_contains(rs[0], flash_size, addr, size) {
            assert(forall|j: int| 0 <= j < rest.len() ==> #[trigger] rs[j + 1] == rest[j]);
            match spec_resolve(rest, flash_size, addr, size) {
                Some(i) => {
                    assert forall|j: int| 0 <= j < i + 1 implies !region_contains(
                        #[trigger] rs[j],
                        flash_size,
                        addr,
                        size,
                    ) by {
                        if j > 0 {
                            assert(rs[j] == rest[j - 1]);
                        }
                    }
                },
                None => {
                    assert forall|j: int| 0 <= j < rs.len() implies !region_contains(
                        #[trigger] rs[j],
                        flash_size,
                        addr,
                        size,
                    ) by {
                        if j > 0 {
                            assert(rs[j] == rest[j - 1]);
                        }
                    }
                },
            }
        }
    }
}

/// Resolution finds a region exactly when some region of the list contains
/// the interval.
pub proof fn lemma_resolve_iff(
    rs: Seq<RegionModel>,
    flash_size: Option<FlashSize>,
    addr: int,
    size: int,
)
    ensures
        (spec_resolve(rs, flash_size, addr, size) is Some) <==> (exists|i: int|
            0 <= i < rs.len() && region_contains(#[trigger] rs[i], flash_size, addr, size)),
{
    lemma_resolve_first_match(rs, flash_size, addr, size);
    match spec_resolve(rs, flash_size, addr, size) {
        Some(i) => {
            assert(region_contains(rs[i], flash_size, addr, size));
        },
        None => {},
    }
}

/// Finds the first region fully containing `[addr, addr + size]`, as
/// `spec_resolve` states; `None` when the interval lies in no region or spans
/// two.
pub fn resolve(
    regions: &Vec<MemoryRegion>,
    flash_size: Option<FlashSize>,
    addr: u64,
    size: u64,
) -> (r: Option<usize>)
    requires
        forall|i: int| 0 <= i < regions@.len() ==> region_wf((#[trigger] regions@[i])@),
    ensures
        match r {
            Some(i) => 0 <= i < regions@.len() && spec_resolve(
                regions_view(regions@),
                flash_size,
                addr as int,
                size as int,
            ) == Some(i as int),
            None => spec_resolve(regions_view(regions@), flash_size, addr as int, size as int)
                is None,
        },
{
    let models = Ghost(regions_view(regions@));
    let mut i: usize = 0;
    while i < regions.len()
        invariant
            i <= regions@.len(),
            models@ == regions_view(regions@),
            forall|i: int| 0 <= i < regions@.len() ==> region_wf((#[trigger] regions@[i])@),
            forall|j: int|
                0 <= j < i ==> !region_contains(
                    #[trigger] models@[j],
                    flash_size,
                    addr as int,
                    size as int,
                ),
        decreases regions@.len() - i,
    {
        let reg = &regions[i];
        proof {
            assert(models@[i as int] == regions@[i as int]@);
        }
        let reg_end = reg.end(flash_size);
        if reg.start <= addr && (addr as u128) + (size as u128) <= (reg_end as u128) {
            proof {
                assert(region_contains(models@[i as int], flash_size, addr as int, size as int));
                lemma_resolve_first_match(models@, flash_size, addr as int, size as int);
            }
            return Some(i);
        }
        i = i + 1;
    }
    proof {
        lemma_resolve_first_match(models@, flash_size, addr as int, size as int);
    }
    None
}

} // verus!
