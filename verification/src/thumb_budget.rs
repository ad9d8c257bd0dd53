//! Memory budget for the thumbnail pipeline.
//!
//! The file manager only decides whether a picture fits the thumbnail budget and
//! which worker should build it; the viewer owns decoding.

use vstd::prelude::*;

verus! {

/// Bytes per pixel in RGBA format (Red, Green, Blue, Alpha = 4 bytes)
pub const RGBA_BYTES_PER_PIXEL: u64 = 4;

/// Side of one atlas fragment in iced (`MAX_SIZE` in its wgpu image atlas). A
/// picture larger than this is split across several atlas layers, one draw instance
/// each.
pub const ATLAS_FRAGMENT_SIZE: u32 = 2048;

/// Conversion factor: 1 MB = 1024 * 1024 bytes (binary megabyte, used for RAM
/// calculations)
pub const MB_TO_BYTES: u64 = 1048576;

/// The bytes an RGBA picture of this size takes once decoded.
pub open spec fn image_bytes(width: u32, height: u32) -> int {
    width * height * RGBA_BYTES_PER_PIXEL
}

/// Whether that number of bytes can be counted in a `u64`.
pub open spec fn image_bytes_fit(width: u32, height: u32) -> bool {
    image_bytes(width, height) <= u64::MAX
}

proof fn lemma_pixels_fit(width: u32, height: u32)
    ensures
        0 <= width * height <= u64::MAX,
{
    assert(0 <= width * height <= 0xffff_ffffu64 * 0xffff_ffffu64) by (nonlinear_arith);
}

/// Calculate the memory required to decode an image in bytes.
/// Returns None if the calculation overflows.
pub fn calculate_image_memory(width: u32, height: u32) -> (r: Option<u64>)
    ensures
        match r {
            Some(b) => image_bytes_fit(width, height) && b == image_bytes(width, height),
            None => !image_bytes_fit(width, height),
        },
{
    proof {
        lemma_pixels_fit(width, height);
    }
    let pixels = (width as u64).checked_mul(height as u64);
    match pixels {
        None => None,
        Some(p) => p.checked_mul(RGBA_BYTES_PER_PIXEL),
    }
}

/// Check if an image's dimensions would exceed the available memory budget.
/// Returns true if the image is too large to decode; an image whose size cannot
/// even be counted in a `u64` exceeds any limit.
pub fn exceeds_memory_limit(width: u32, height: u32, memory_limit_mb: u64) -> (r: bool)
    requires
        image_bytes_fit(width, height) ==> memory_limit_mb * MB_TO_BYTES <= u64::MAX,
    ensures
        r == (!image_bytes_fit(width, height) || image_bytes(width, height) > memory_limit_mb
            * MB_TO_BYTES),
{
    let bytes_needed = match calculate_image_memory(width, height) {
        None => return true,
        Some(b) => b,
    };
    let max_bytes = memory_limit_mb * MB_TO_BYTES;
    bytes_needed > max_bytes
}

/// Check if an image should use GPU tiling for display.
/// Images larger than the atlas fragment size need to be split into tiles for GPU
/// upload.
pub fn should_use_tiling(width: u32, height: u32) -> (r: bool)
    ensures
        r == (width > ATLAS_FRAGMENT_SIZE || height > ATLAS_FRAGMENT_SIZE),
{
    width > ATLAS_FRAGMENT_SIZE || height > ATLAS_FRAGMENT_SIZE
}

/// Whether an image needs a worker of its own: its decoded size, in whole MB,
/// exceeds a worker's share of the budget.
pub open spec fn needs_dedicated_worker(
    width: u32,
    height: u32,
    total_budget_mb: u64,
    parallel_workers: usize,
) -> bool {
    width != 0 && height != 0 && image_bytes_fit(width, height) && image_bytes(width, height)
        / (MB_TO_BYTES as int) > (total_budget_mb / (parallel_workers as u64)) as int
}

/// Determine if an image should use the dedicated worker for thumbnail generation.
/// Returns (use_dedicated_worker, effective_max_mb, effective_jobs).
///
/// Large images that exceed per-worker memory budget get routed to a dedicated
/// worker with full memory budget. Smaller images use the normal parallel worker
/// pool. Empty dimensions, and sizes that overflow, stay in the normal queue.
pub fn should_use_dedicated_worker(
    width: u32,
    height: u32,
    total_budget_mb: u64,
    parallel_workers: usize,
) -> (r: (bool, u64, usize))
    requires
        width == 0 || height == 0 || !image_bytes_fit(width, height) || parallel_workers > 0,
    ensures
        r.0 == needs_dedicated_worker(width, height, total_budget_mb, parallel_workers),
        r.1 == total_budget_mb,
        r.2 == if r.0 {
            1
        } else {
            parallel_workers
        },
{
    if width == 0 || height == 0 {
        return (false, total_budget_mb, parallel_workers);
    }
    let bytes_needed = match calculate_image_memory(width, height) {
        None => return (false, total_budget_mb, parallel_workers),
        Some(b) => b,
    };
    let mb_needed = bytes_needed / MB_TO_BYTES;
    let per_worker_budget_mb = total_budget_mb / parallel_workers as u64;
    if mb_needed > per_worker_budget_mb {
        (true, total_budget_mb, 1)
    } else {
        (false, total_budget_mb, parallel_workers)
    }
}

} // verus!
