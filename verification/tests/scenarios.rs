use memreport::report::{filter_sections, run_report, sort_sections, Section};
use memreport::flash::FlashSize;

fn sec(name: &str, address: u64, size: u64) -> Section {
    Section { name: name.to_string(), address, size }
}

#[test]
fn esp32_text_section_renders_near_left_edge() {
    let lines = run_report(
        vec![sec(".text", 0x400D0010, 0x100)],
        "ESP32",
        None,
        120,
        false,
    )
    .unwrap();
    assert_eq!(lines.len(), 2);
    assert_eq!(lines[0], "");
    let expected = format!(
        ".text 400d0010     256 IROM     [\u{258F}{}]",
        " ".repeat(88)
    );
    assert_eq!(lines[1], expected);
}

#[test]
fn hyphen_and_case_insensitive_chip_lookup() {
    let sections = || vec![sec(".text", 0x42000010, 0x200)];
    let a = run_report(sections(), "esp32-s3", None, 120, false).unwrap();
    let b = run_report(sections(), "ESP32S3", None, 120, false).unwrap();
    assert_eq!(a, b);
    assert!(!a.is_empty());
}

#[test]
fn unknown_chip_yields_fixed_diagnostic() {
    let r = run_report(vec![sec(".text", 0x400D0010, 0x100)], "ESP99", None, 120, false);
    assert_eq!(r.unwrap_err(), "Unknown chip");
}

#[test]
fn zero_address_and_zero_size_sections_are_dropped() {
    let lines = run_report(
        vec![
            sec(".zero_addr", 0, 0x10),
            sec(".text", 0x400D0010, 0x100),
            sec(".zero_size", 0x400D0400, 0),
        ],
        "ESP32",
        None,
        120,
        false,
    )
    .unwrap();
    assert_eq!(lines.len(), 2);
    assert_eq!(lines[0], "");
    assert!(lines[1].starts_with(".text"));
    for l in &lines {
        assert!(!l.contains(".zero_addr"));
        assert!(!l.contains(".zero_size"));
    }
}

#[test]
fn sections_print_in_ascending_address_order() {
    let lines = run_report(
        vec![
            sec(".late", 0x400D0200, 0x40),
            sec(".early", 0x400D0010, 0x40),
        ],
        "ESP32",
        None,
        120,
        false,
    )
    .unwrap();
    assert_eq!(lines.len(), 3);
    assert_eq!(lines[0], "");
    assert!(lines[1].starts_with(".early"));
    assert!(lines[2].starts_with(".late"));
}

#[test]
fn blank_line_exactly_on_region_change() {
    let lines = run_report(
        vec![
            sec(".data", 0x3FFB0000, 0x100),
            sec(".text", 0x400D0010, 0x100),
            sec(".text2", 0x400D0400, 0x100),
        ],
        "ESP32",
        None,
        120,
        false,
    )
    .unwrap();
    // One blank opening the DRAM group, one between the groups, none
    // between the two IROM sections.
    assert_eq!(lines.len(), 5);
    assert_eq!(lines[0], "");
    assert!(lines[1].starts_with(".data"));
    assert_eq!(lines[2], "");
    assert!(lines[3].starts_with(".text "));
    assert!(lines[4].starts_with(".text2"));
}

#[test]
fn unresolved_section_gets_no_separator_and_keeps_group() {
    let lines = run_report(
        vec![
            sec(".data", 0x3FFB0000, 0x100),
            sec(".nowhere", 0x40000000, 0x10),
            sec(".text", 0x400D0010, 0x100),
        ],
        "ESP32",
        None,
        120,
        false,
    )
    .unwrap();
    assert_eq!(lines.len(), 5);
    assert_eq!(lines[0], "");
    assert!(lines[1].starts_with(".data"));
    assert!(lines[2].starts_with(".nowhere"));
    // The unresolved line carries only the three base columns.
    assert!(!lines[2].contains('['));
    assert_eq!(lines[3], "");
    assert!(lines[4].starts_with(".text"));
}

#[test]
fn flash_capacity_extends_rom_region_in_report() {
    // Beyond ESP32-C3's fixed 4 MB IROM, but inside a 16 MB capacity.
    let far = || vec![sec(".far", 0x42800000, 0x100)];
    let without = run_report(far(), "ESP32-C3", None, 120, false).unwrap();
    assert_eq!(without.len(), 1);
    assert!(!without[0].contains("IROM"));
    let with = run_report(far(), "ESP32-C3", Some(FlashSize::_16Mb), 120, false).unwrap();
    assert_eq!(with.len(), 2);
    assert_eq!(with[0], "");
    assert!(with[1].contains("IROM"));
}

#[test]
fn expert_catalog_is_selectable_at_runtime() {
    let lines = run_report(
        vec![sec(".rtc", 0x50000010, 0x20)],
        "ESP32",
        None,
        120,
        true,
    )
    .unwrap();
    assert_eq!(lines.len(), 2);
    assert!(lines[1].contains("RTC_SLOW"));
    // The basic catalog maps no region there.
    let basic = run_report(
        vec![sec(".rtc", 0x50000010, 0x20)],
        "ESP32",
        None,
        120,
        false,
    )
    .unwrap();
    assert_eq!(basic.len(), 1);
    assert!(!basic[0].contains("RTC_SLOW"));
}

#[test]
fn two_runs_produce_identical_output() {
    let sections = || {
        vec![
            sec(".data", 0x3FFB0000, 0x1000),
            sec(".text", 0x400D0010, 0x2000),
            sec(".rodata", 0x3F400020, 0x300),
        ]
    };
    let a = run_report(sections(), "ESP32", Some(FlashSize::_4Mb), 120, false).unwrap();
    let b = run_report(sections(), "ESP32", Some(FlashSize::_4Mb), 120, false).unwrap();
    assert_eq!(a, b);
}

#[test]
fn empty_section_list_gives_empty_report() {
    let lines = run_report(vec![], "ESP32", None, 120, false).unwrap();
    assert!(lines.is_empty());
}

#[test]
fn wide_addresses_exceed_their_column_without_truncation() {
    // An unresolved section keeps only the three base columns; a ten-digit
    // address overflows the eight-cell column rather than being cut.
    let lines = run_report(
        vec![sec(".big", 0x123456789A, 0x100)],
        "ESP32",
        None,
        120,
        false,
    )
    .unwrap();
    assert_eq!(lines.len(), 1);
    assert_eq!(lines[0], ".big 123456789a     256");
}

#[test]
fn filter_drops_only_zero_sections_keeping_order() {
    let out = filter_sections(vec![
        sec("a", 0x10, 1),
        sec("b", 0, 1),
        sec("c", 0x20, 0),
        sec("d", 0x30, 2),
    ]);
    let names: Vec<&str> = out.iter().map(|s| s.name.as_str()).collect();
    assert_eq!(names, ["a", "d"]);
}

#[test]
fn sort_is_stable_on_equal_addresses() {
    let out = sort_sections(vec![
        sec("second", 0x20, 1),
        sec("tie_one", 0x10, 1),
        sec("tie_two", 0x10, 1),
    ]);
    let names: Vec<&str> = out.iter().map(|s| s.name.as_str()).collect();
    assert_eq!(names, ["tie_one", "tie_two", "second"]);
}
