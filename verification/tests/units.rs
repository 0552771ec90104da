use memreport::catalog::{memory_catalog, memory_catalog_expert, normalize, MemoryRegion};
use memreport::flash::FlashSize;
use memreport::render::render_bar;
use memreport::resolve::resolve;
use memreport::textfmt::{dec_string, hex_string};

fn region(id: usize, name: &str, start: u64, length: u64) -> MemoryRegion {
    MemoryRegion { id, name: name.to_string(), start, length }
}

#[test]
fn flash_sizes_in_bytes() {
    assert_eq!(FlashSize::_256Kb.bytes(), 256 * 1024);
    assert_eq!(FlashSize::_512Kb.bytes(), 512 * 1024);
    assert_eq!(FlashSize::_1Mb.bytes(), 1024 * 1024);
    assert_eq!(FlashSize::_2Mb.bytes(), 2 * 1024 * 1024);
    assert_eq!(FlashSize::_4Mb.bytes(), 4 * 1024 * 1024);
    assert_eq!(FlashSize::_8Mb.bytes(), 8 * 1024 * 1024);
    assert_eq!(FlashSize::_16Mb.bytes(), 16 * 1024 * 1024);
    assert_eq!(FlashSize::_32Mb.bytes(), 32 * 1024 * 1024);
    assert_eq!(FlashSize::_64Mb.bytes(), 64 * 1024 * 1024);
    assert_eq!(FlashSize::_128Mb.bytes(), 128 * 1024 * 1024);
    assert_eq!(FlashSize::_256Mb.bytes(), 256 * 1024 * 1024);
}

#[test]
fn normalize_strips_hyphens_and_case() {
    assert_eq!(normalize("ESP32-S3"), "esp32s3");
    assert_eq!(normalize("esp32-s3"), "esp32s3");
    assert_eq!(normalize("ESP32S3"), "esp32s3");
    assert_eq!(normalize(""), "");
    assert_eq!(normalize("--A-b-"), "ab");
}

#[test]
fn hex_and_dec_renderings() {
    assert_eq!(hex_string(0), "0");
    assert_eq!(hex_string(0x400D0010), "400d0010");
    assert_eq!(hex_string(0xDEADBEEF), "deadbeef");
    assert_eq!(hex_string(15), "f");
    assert_eq!(hex_string(16), "10");
    assert_eq!(dec_string(0), "0");
    assert_eq!(dec_string(256), "256");
    assert_eq!(dec_string(1048576), "1048576");
}

#[test]
fn region_end_uses_fixed_length_without_capacity() {
    let r = region(3, "IROM", 0x400D0000, 4 * 1024 * 1024);
    assert_eq!(r.end(None), 0x400D0000 + 4 * 1024 * 1024);
}

#[test]
fn region_end_rom_takes_supplied_capacity() {
    let r = region(3, "IROM", 0x400D0000, 4 * 1024 * 1024);
    assert_eq!(r.end(Some(FlashSize::_512Kb)), 0x400D0000 + 512 * 1024);
    assert_eq!(r.end(Some(FlashSize::_256Mb)), 0x400D0000 + 256 * 1024 * 1024);
}

#[test]
fn region_end_non_rom_ignores_capacity() {
    let r = region(1, "IRAM", 0x40080000, 128 * 1024);
    assert_eq!(r.end(Some(FlashSize::_256Mb)), r.end(None));
    assert_eq!(r.end(Some(FlashSize::_256Kb)), 0x40080000 + 128 * 1024);
}

#[test]
fn resolve_picks_containing_region() {
    let regions = vec![
        region(0, "DRAM", 0x3FFB0000, 176 * 1024),
        region(3, "IROM", 0x400D0000, 4 * 1024 * 1024),
    ];
    assert_eq!(resolve(&regions, None, 0x400D0010, 0x100), Some(1));
    assert_eq!(resolve(&regions, None, 0x3FFB0000, 16), Some(0));
}

#[test]
fn resolve_unmapped_address_finds_nothing() {
    let regions = vec![region(0, "DRAM", 0x3FFB0000, 176 * 1024)];
    assert_eq!(resolve(&regions, None, 0x1000, 16), None);
}

#[test]
fn resolve_section_spanning_two_regions_finds_nothing() {
    // Two adjacent regions; the section straddles their boundary, so
    // neither fully contains it.
    let regions = vec![
        region(0, "A", 0x1000, 0x1000),
        region(1, "B", 0x2000, 0x1000),
    ];
    assert_eq!(resolve(&regions, None, 0x1FF0, 0x20), None);
    assert_eq!(resolve(&regions, None, 0x1FF0, 0x10), Some(0));
    assert_eq!(resolve(&regions, None, 0x2000, 0x10), Some(1));
}

#[test]
fn resolve_first_match_wins_on_overlap() {
    let regions = vec![
        region(0, "FIRST", 0x1000, 0x1000),
        region(1, "SECOND", 0x1000, 0x1000),
    ];
    assert_eq!(resolve(&regions, None, 0x1100, 0x10), Some(0));
}

#[test]
fn resolve_honors_flash_capacity_on_rom() {
    let regions = vec![region(0, "IROM", 0x42000000, 0x400000)];
    // Beyond the fixed 4 MB length, inside a supplied 16 MB capacity.
    assert_eq!(resolve(&regions, None, 0x42800000, 0x100), None);
    assert_eq!(resolve(&regions, Some(FlashSize::_16Mb), 0x42800000, 0x100), Some(0));
    // A supplied capacity can also shrink the ROM region.
    assert_eq!(resolve(&regions, Some(FlashSize::_256Kb), 0x42100000, 0x100), None);
}

#[test]
fn bar_exact_half_fill() {
    // Offset and fill both scale to half the width.
    let bar = render_bar(0, 100, 50, 50, 10);
    assert_eq!(bar, "[     \u{2588}\u{2588}\u{2588}\u{2588}\u{2588}]");
    assert_eq!(bar.chars().count(), 12);
}

#[test]
fn bar_full_region_fills_whole_width() {
    let bar = render_bar(0x1000, 0x2000, 0x1000, 0x1000, 8);
    assert_eq!(bar.chars().count(), 10);
    let cells: Vec<char> = bar.chars().collect();
    assert_eq!(cells[0], '[');
    assert_eq!(cells[9], ']');
    for k in 1..9 {
        assert_eq!(cells[k], '\u{2588}');
    }
}

#[test]
fn bar_single_byte_uses_thin_marker() {
    // One byte in a 4 MB region: the fill truncates to zero cells, so one
    // thin marker keeps the section visible.
    let bar = render_bar(0x400D0000, 0x404D0000, 0x400D0010, 1, 89);
    assert_eq!(bar.chars().count(), 91);
    let cells: Vec<char> = bar.chars().collect();
    assert_eq!(cells[0], '[');
    assert_eq!(cells[1], '\u{258F}');
    for k in 2..90 {
        assert_eq!(cells[k], ' ');
    }
    assert_eq!(cells[90], ']');
}

#[test]
fn bar_flush_right_edge_keeps_length() {
    // The last byte of a large region: offset lands on the last cell and
    // the trailing pad is empty, never negative.
    let bar = render_bar(0, 0x100000, 0xFFFFF, 1, 16);
    assert_eq!(bar.chars().count(), 18);
    let cells: Vec<char> = bar.chars().collect();
    assert_eq!(cells[0], '[');
    assert_eq!(cells[16], '\u{258F}');
    assert_eq!(cells[17], ']');
}

#[test]
fn bar_length_is_width_plus_brackets() {
    for w in 1..40usize {
        let bar = render_bar(0, 1000, 250, 500, w);
        assert_eq!(bar.chars().count(), w + 2);
    }
}

#[test]
fn chip_lookup_is_case_and_hyphen_insensitive() {
    let catalog = memory_catalog();
    let a = memreport::catalog::find_chip(&catalog, "esp32-s3");
    let b = memreport::catalog::find_chip(&catalog, "ESP32S3");
    assert_eq!(a, Some(2));
    assert_eq!(a, b);
    assert_eq!(memreport::catalog::find_chip(&catalog, "ESP99"), None);
}

#[test]
fn catalogs_list_the_known_chips() {
    let basic = memory_catalog();
    let expert = memory_catalog_expert();
    assert_eq!(basic.len(), 7);
    assert_eq!(expert.len(), 7);
    assert_eq!(basic[0].name, "ESP32");
    assert_eq!(basic[0].regions.len(), 4);
    assert_eq!(basic[0].regions[3].name, "IROM");
    assert_eq!(basic[0].regions[3].start, 0x400D0000);
    assert_eq!(expert[0].name, "ESP32");
    assert_eq!(expert[0].regions.len(), 11);
}
