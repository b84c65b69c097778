use vstd::prelude::*;
use crate::error::Error;
use crate::types::{BackendKind, HardwareInventory};

verus! {

/// The memory assumed when the total cannot be queried: 8 GB.
pub const FALLBACK_TOTAL_RAM: u64 = 8000000000;

/// The total memory to plan with: the queried total, else the fallback.
pub open spec fn total_or_fallback(total: Option<u64>) -> u64 {
    match total {
        Some(t) => t,
        None => FALLBACK_TOTAL_RAM,
    }
}

/// The available memory on a system that reports no page statistics:
/// 55% of the total (integer division), the total falling back to 8 GB.
pub open spec fn spec_available_ram(total: Option<u64>) -> u64 {
    (total_or_fallback(total) * 55 / 100) as u64
}

/// Estimates the available memory from the queried total alone.
pub fn available_ram(total: Option<u64>) -> (r: u64)
    requires
        total_or_fallback(total) * 55 <= u64::MAX,
    ensures
        r == spec_available_ram(total),
{
    let t = match total {
        Some(t) => t,
        None => FALLBACK_TOTAL_RAM,
    };
    t * 55 / 100
}

/// Page counts of the virtual-memory statistics: free, inactive and compressed pages.
#[derive(Debug, Clone, Copy, PartialEq, Eq)]
pub struct VmPageCounts {
    pub free: u32,
    pub inactive: u32,
    pub compressed: u32,
}

/// The bytes that the page counts stand for.
pub open spec fn pages_bytes(c: VmPageCounts, page_size: u64) -> int {
    c.free * page_size + c.inactive * page_size + c.compressed * page_size
}

/// Whether the bytes of the page counts fit in 64 bits.
pub fn pages_fit(c: VmPageCounts, page_size: u64) -> (b: bool)
    ensures
        b == (pages_bytes(c, page_size) <= u64::MAX),
{
    proof {
        assert(0 <= c.free * page_size) by (nonlinear_arith);
        assert(0 <= c.inactive * page_size) by (nonlinear_arith);
        assert(0 <= c.compressed * page_size) by (nonlinear_arith);
    }
    match (c.free as u64).checked_mul(page_size) {
        None => false,
        Some(f) => match (c.inactive as u64).checked_mul(page_size) {
            None => false,
            Some(i) => match (c.compressed as u64).checked_mul(page_size) {
                None => false,
                Some(k) => match f.checked_add(i) {
                    None => false,
                    Some(fi) => fi.checked_add(k).is_some(),
                },
            },
        },
    }
}

/// The available memory from the virtual-memory statistics, when they could be
/// read: free, inactive and compressed pages; else 55% of a total above 2 GB
/// and 60% of a smaller one. Never more than the total.
pub open spec fn spec_available_ram_from_stats(
    total: Option<u64>,
    page_size: u64,
    counts: Option<VmPageCounts>,
) -> u64 {
    let t = total_or_fallback(total);
    let a: int = match counts {
        Some(c) => pages_bytes(c, page_size),
        None => if t > 2000000000 { t * 55 / 100 } else { t * 60 / 100 },
    };
    if a < t { a as u64 } else { t }
}

/// Estimates the available memory from the page statistics of the virtual-memory system.
pub fn available_ram_from_stats(total: Option<u64>, page_size: u64, counts: Option<VmPageCounts>) -> (r: u64)
    requires
        total_or_fallback(total) * 60 <= u64::MAX,
        counts matches Some(c) ==> pages_bytes(c, page_size) <= u64::MAX,
    ensures
        r == spec_available_ram_from_stats(total, page_size, counts),
{
    let t = match total {
        Some(t) => t,
        None => FALLBACK_TOTAL_RAM,
    };
    let available = match counts {
        Some(c) => {
            proof {
                assert(0 <= c.free * page_size) by (nonlinear_arith);
                assert(0 <= c.inactive * page_size) by (nonlinear_arith);
                assert(0 <= c.compressed * page_size) by (nonlinear_arith);
            }
            let free_bytes = c.free as u64 * page_size;
            let inactive_bytes = c.inactive as u64 * page_size;
            let compressed_bytes = c.compressed as u64 * page_size;
            free_bytes + inactive_bytes + compressed_bytes
        },
        None => {
            if t > 2000000000 {
                t * 55 / 100
            } else {
                t * 60 / 100
            }
        },
    };
    if available < t {
        available
    } else {
        t
    }
}

/// The page size to use: the queried one, else 16 KiB.
pub fn page_size(queried: Option<u32>) -> (r: u64)
    ensures
        r == match queried {
            Some(p) => p as u64,
            None => 16384u64,
        },
{
    match queried {
        Some(p) => p as u64,
        None => 16384,
    }
}

/// Adds the Metal backend where the Metal framework is installed.
pub fn detect_gpu_backends(backends: &mut Vec<BackendKind>, metal_framework: bool)
    ensures
        final(backends)@ == if metal_framework {
            old(backends)@.push(BackendKind::Metal)
        } else {
            old(backends)@
        },
{
    if metal_framework {
        backends.push(BackendKind::Metal);
    }
}

/// The backends of a machine: the CPU, then Metal where it is installed.
pub open spec fn spec_backends(metal_framework: bool) -> Seq<BackendKind> {
    if metal_framework {
        seq![BackendKind::Cpu, BackendKind::Metal]
    } else {
        seq![BackendKind::Cpu]
    }
}

/// The inventory of a machine from what was queried of it. The first failed
/// query decides the error: the total memory, then the free disk space. Every
/// processor is counted as a physical one.
pub fn discover(
    os: String,
    arch: String,
    logical_cpus: usize,
    total_ram: Result<u64, Error>,
    available_ram: u64,
    free_disk: Result<u64, Error>,
    metal_framework: bool,
) -> (r: Result<HardwareInventory, Error>)
    ensures
        total_ram is Err ==> r == Err::<HardwareInventory, Error>(total_ram->Err_0),
        total_ram is Ok && free_disk is Err ==> r == Err::<HardwareInventory, Error>(free_disk->Err_0),
        total_ram is Ok && free_disk is Ok ==> (r matches Ok(inv) && {
            &&& inv.os@ == os@
            &&& inv.arch@ == arch@
            &&& inv.logical_cpus == logical_cpus
            &&& inv.physical_cpus == logical_cpus
            &&& inv.total_ram_bytes == total_ram->Ok_0
            &&& inv.available_ram_bytes == available_ram
            &&& inv.storage_free_bytes == free_disk->Ok_0
            &&& inv.backends@ == spec_backends(metal_framework)
        }),
{
    let total_ram_bytes = match total_ram {
        Ok(t) => t,
        Err(e) => return Err(e),
    };
    let storage_free_bytes = match free_disk {
        Ok(f) => f,
        Err(e) => return Err(e),
    };
    let mut backends = Vec::new();
    backends.push(BackendKind::Cpu);
    detect_gpu_backends(&mut backends, metal_framework);
    proof {
        assert(backends@ =~= spec_backends(metal_framework));
    }
    Ok(HardwareInventory {
        os,
        arch,
        logical_cpus,
        physical_cpus: logical_cpus,
        total_ram_bytes,
        available_ram_bytes: available_ram,
        storage_free_bytes,
        backends,
    })
}

} // verus!
