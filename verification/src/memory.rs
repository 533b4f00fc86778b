//! Memory figures from the kernel's page counters. Counters are in pages and
//! become bytes by the page size that the system reports at run time; all
//! arithmetic saturates at `u64::MAX`.
use vstd::prelude::*;

verus! {

/// The page counters of `vm_statistics64` that the memory check reads.
#[derive(Debug, Clone, Copy)]
pub struct VmPageCounts {
    /// Free pages; this count includes the speculative pages.
    pub free: u32,
    pub speculative: u32,
    pub active: u32,
    pub inactive: u32,
    pub wired: u32,
    /// Pages held by the compressor.
    pub compressor: u32,
    /// Pages backed by no file (anonymous memory).
    pub internal: u32,
    pub purgeable: u32,
}

/// Memory figures in bytes.
#[derive(Debug, Clone, Copy, PartialEq, Eq, Structural)]
pub struct MemoryFigures {
    pub used: u64,
    pub available: u64,
    pub available_non_compressed: u64,
    pub free: u64,
    pub wired: u64,
    pub compressed: u64,
}

pub open spec fn sat(x: int) -> int {
    if x > u64::MAX {
        u64::MAX as int
    } else {
        x
    }
}

/// Pages in bytes.
pub open spec fn page_bytes(pages: int, page_size: u64) -> int {
    sat(pages * page_size)
}

/// The figures:
/// `used = (internal - purgeable) + wired + compressed`,
/// `available_non_compressed = active + inactive + free` (free already holds
/// the speculative pages), `available = available_non_compressed + compressed`,
/// and `free` without the speculative pages.
pub open spec fn figures_spec(c: VmPageCounts, page_size: u64) -> MemoryFigures {
    let internal_only = if c.internal >= c.purgeable {
        c.internal - c.purgeable
    } else {
        0
    };
    let free_only = if c.free >= c.speculative {
        c.free - c.speculative
    } else {
        0
    };
    let available_non_compressed = page_bytes(
        sat(sat(c.active + c.inactive) + c.free),
        page_size,
    );
    let compressed = page_bytes(c.compressor as int, page_size);
    MemoryFigures {
        used: page_bytes(sat(sat(internal_only + c.wired) + c.compressor), page_size) as u64,
        available: sat(available_non_compressed + compressed) as u64,
        available_non_compressed: available_non_compressed as u64,
        free: page_bytes(free_only, page_size) as u64,
        wired: page_bytes(c.wired as int, page_size) as u64,
        compressed: compressed as u64,
    }
}

fn bytes(pages: u64, page_size: u64) -> (r: u64)
    ensures
        r == page_bytes(pages as int, page_size),
{
    match pages.checked_mul(page_size) {
        Some(b) => b,
        None => 18446744073709551615u64,
    }
}

/// Computes the memory figures from the page counters.
pub fn memory_figures(c: &VmPageCounts, page_size: u64) -> (f: MemoryFigures)
    ensures
        f == figures_spec(*c, page_size),
{
    let free = bytes(c.free.saturating_sub(c.speculative) as u64, page_size);
    let used = bytes(
        (c.internal.saturating_sub(c.purgeable) as u64).saturating_add(c.wired as u64).saturating_add(
            c.compressor as u64,
        ),
        page_size,
    );
    let available_non_compressed = bytes(
        (c.active as u64).saturating_add(c.inactive as u64).saturating_add(c.free as u64),
        page_size,
    );
    let compressed = bytes(c.compressor as u64, page_size);
    let available = available_non_compressed.saturating_add(compressed);
    MemoryFigures {
        used,
        available,
        available_non_compressed,
        free,
        wired: bytes(c.wired as u64, page_size),
        compressed,
    }
}

/// Without saturation, the available memory is the memory available without
/// compression plus the compressed memory, and the free memory is the
/// available memory without active, inactive and speculative pages.
pub proof fn law_memory_figures_add_up(c: VmPageCounts, page_size: u64)
    requires
        (c.active + c.inactive + c.free + c.compressor) * page_size <= u64::MAX,
    ensures
        ({
            let f = figures_spec(c, page_size);
            &&& f.available == f.available_non_compressed + f.compressed
            &&& f.available_non_compressed == (c.active + c.inactive + c.free) * page_size
            &&& c.free >= c.speculative ==> f.free + (c.active + c.inactive + c.speculative)
                * page_size == f.available_non_compressed
        }),
{
    let a = c.active as int;
    let i = c.inactive as int;
    let fr = c.free as int;
    let co = c.compressor as int;
    let sp = c.speculative as int;
    let p = page_size as int;
    assert((a + i + fr) * p <= (a + i + fr + co) * p) by (nonlinear_arith)
        requires
            co >= 0,
            p >= 0,
    ;
    assert(co * p <= (a + i + fr + co) * p) by (nonlinear_arith)
        requires
            a >= 0,
            i >= 0,
            fr >= 0,
            p >= 0,
    ;
    assert((a + i + fr) * p + co * p == (a + i + fr + co) * p) by (nonlinear_arith);
    if fr >= sp {
        assert((fr - sp) * p <= (a + i + fr) * p) by (nonlinear_arith)
            requires
                a >= 0,
                i >= 0,
                sp >= 0,
                p >= 0,
        ;
        assert((fr - sp) * p + (a + i + sp) * p == (a + i + fr) * p) by (nonlinear_arith);
    }
}

/// Used memory is the anonymous pages that cannot be purged, plus the wired
/// and the compressed pages, in bytes; when nothing saturates it is exactly
/// `((internal - purgeable) + wired + compressor) * page_size`.
pub proof fn law_used_memory(c: VmPageCounts, page_size: u64)
    requires
        c.internal >= c.purgeable,
        ((c.internal - c.purgeable) + c.wired + c.compressor) * page_size <= u64::MAX,
    ensures
        figures_spec(c, page_size).used == ((c.internal - c.purgeable) + c.wired + c.compressor)
            * page_size,
{
}

/// Used memory does not depend on the active, inactive, free or speculative
/// pages: two counter sets that differ only there give the same used memory.
pub proof fn law_used_memory_ignores_other_pages(c: VmPageCounts, d: VmPageCounts, page_size: u64)
    requires
        c.internal == d.internal,
        c.purgeable == d.purgeable,
        c.wired == d.wired,
        c.compressor == d.compressor,
    ensures
        figures_spec(c, page_size).used == figures_spec(d, page_size).used,
{
}

} // verus!
