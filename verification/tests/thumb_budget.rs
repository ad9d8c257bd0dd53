use wmde_files::thumb_budget::calculate_image_memory;
use wmde_files::thumb_budget::exceeds_memory_limit;
use wmde_files::thumb_budget::should_use_dedicated_worker;
use wmde_files::thumb_budget::should_use_tiling;

#[test]
fn image_memory_is_four_bytes_a_pixel() {
    assert_eq!(calculate_image_memory(1920, 1080), Some(8_294_400));
    assert_eq!(calculate_image_memory(0, 1080), Some(0));
    // (2^32 - 1)^2 pixels fit in a u64, four bytes each do not.
    assert_eq!(calculate_image_memory(u32::MAX, u32::MAX), None);
}

#[test]
fn memory_limit_is_in_binary_megabytes() {
    // 1000 x 1000 x 4 = 4_000_000 bytes; 3 MB = 3_145_728, 4 MB = 4_194_304.
    assert!(exceeds_memory_limit(1000, 1000, 3));
    assert!(!exceeds_memory_limit(1000, 1000, 4));
    // An uncountable size exceeds any limit.
    assert!(exceeds_memory_limit(u32::MAX, u32::MAX, u64::MAX));
}

#[test]
fn tiling_starts_past_one_atlas_fragment() {
    assert!(!should_use_tiling(2048, 2048));
    assert!(should_use_tiling(2049, 10));
    assert!(should_use_tiling(10, 4096));
}

#[test]
fn large_images_get_a_worker_of_their_own() {
    // 10000 x 10000 x 4 bytes = 381 MB; a quarter of 1024 MB is 256.
    assert_eq!(should_use_dedicated_worker(10000, 10000, 1024, 4), (true, 1024, 1));
    // 1000 x 1000 x 4 bytes = 3 MB.
    assert_eq!(should_use_dedicated_worker(1000, 1000, 1024, 4), (false, 1024, 4));
}

#[test]
fn degenerate_images_stay_in_the_normal_queue() {
    assert_eq!(should_use_dedicated_worker(0, 100, 1000, 4), (false, 1000, 4));
    assert_eq!(should_use_dedicated_worker(100, 0, 1000, 4), (false, 1000, 4));
    assert_eq!(should_use_dedicated_worker(u32::MAX, u32::MAX, 100, 0), (false, 100, 0));
}
