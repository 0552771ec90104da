//! The chip memory catalog: each known chip with its ordered list of memory
//! regions, and the case/hyphen-insensitive chip lookup.

use crate::flash::{spec_flash_bytes, FlashSize, MAX_FLASH_BYTES};
use crate::textfmt::push_char;
use vstd::prelude::*;
use vstd::string::StrSliceExecFns;

verus! {

/// A named address range of a chip's memory space.
pub struct MemoryRegion {
    /// Group identifier, used only to detect region changes for spacing.
    pub id: usize,
    /// Display name; a name ending in "ROM" marks a ROM-class region.
    pub name: String,
    /// First address of the region.
    pub start: u64,
    /// Fixed catalog length in bytes, used unless a flash capacity overrides it.
    pub length: u64,
}

/// A chip with its catalog of memory regions, in declaration order.
pub struct Memory {
    /// Chip identifier, matched case- and hyphen-insensitively.
    pub name: String,
    /// The chip's regions, in declaration order (first match wins).
    pub regions: Vec<MemoryRegion>,
}

/// The mathematical value of a region: what the contracts speak of.
#[verifier::ext_equal]
pub struct RegionModel {
    pub id: int,
    pub name: Seq<char>,
    pub start: int,
    pub length: int,
}

/// The mathematical value of a chip.
#[verifier::ext_equal]
pub struct ChipModel {
    pub name: Seq<char>,
    pub regions: Seq<RegionModel>,
}

impl View for MemoryRegion {
    type V = RegionModel;

    open spec fn view(&self) -> RegionModel {
        RegionModel {
            id: self.id as int,
            name: self.name@,
            start: self.start as int,
            length: self.length as int,
        }
    }
}

impl View for Memory {
    type V = ChipModel;

    open spec fn view(&self) -> ChipModel {
        ChipModel {
            name: self.name@,
            regions: self.regions@.map_values(|r: MemoryRegion| r@),
        }
    }
}

/// The models of a list of chips.
pub open spec fn chips_view(ms: Seq<Memory>) -> Seq<ChipModel> {
    ms.map_values(|m: Memory| m@)
}

/// Whether a region name marks a ROM-class region: it ends with "ROM".
pub open spec fn ends_with_rom(name: Seq<char>) -> bool {
    &&& name.len() >= 3
    &&& name[name.len() - 3] == 'R'
    &&& name[name.len() - 2] == 'O'
    &&& name[name.len() - 1] == 'M'
}

/// Whether `name` ends with the literal "ROM".
pub fn name_ends_with_rom(name: &str) -> (r: bool)
    ensures
        r == ends_with_rom(name@),
{
    let n = name.unicode_len();
    if n < 3 {
        false
    } else {
        name.get_char(n - 3) == 'R' && name.get_char(n - 2) == 'O' && name.get_char(n - 1) == 'M'
    }
}

/// The length a region presents for a query: the supplied flash capacity for a
/// ROM-class region, its fixed catalog length otherwise.
pub open spec fn spec_effective_length(r: RegionModel, flash_size: Option<FlashSize>) -> int {
    if ends_with_rom(r.name) {
        match flash_size {
            Some(f) => spec_flash_bytes(f) as int,
            None => r.length,
        }
    } else {
        r.length
    }
}

/// One past the last address of the region for a query.
pub open spec fn spec_end(r: RegionModel, flash_size: Option<FlashSize>) -> int {
    r.start + spec_effective_length(r, flash_size)
}

/// The flash-capacity override touches ROM-class regions alone: a region
/// whose name does not end in "ROM" keeps its fixed catalog length whatever
/// capacity is supplied, and a ROM-class one takes the supplied capacity as
/// its length exactly when one is supplied.
pub proof fn lemma_flash_override_only_rom(r: RegionModel, flash_size: Option<FlashSize>)
    ensures
        !ends_with_rom(r.name) ==> spec_end(r, flash_size) == r.start + r.length,
        flash_size is None ==> spec_end(r, flash_size) == r.start + r.length,
        match flash_size {
            Some(f) => ends_with_rom(r.name) ==> spec_end(r, flash_size) == r.start
                + spec_flash_bytes(f),
            None => true,
        },
{
}

/// The region's end fits in a 64-bit address whatever capacity is supplied.
pub open spec fn region_wf(r: RegionModel) -> bool {
    &&& 0 <= r.id
    &&& 0 <= r.start
    &&& 0 <= r.length
    &&& r.start + r.length <= u64::MAX
    &&& r.start + MAX_FLASH_BYTES <= u64::MAX
}

/// All regions of the chip fit in a 64-bit address space.
pub open spec fn chip_wf(m: ChipModel) -> bool {
    forall|i: int| 0 <= i < m.regions.len() ==> region_wf(#[trigger] m.regions[i])
}

impl MemoryRegion {
    /// One past the region's last address, honoring the flash-capacity
    /// override for ROM-class regions.
    pub fn end(&self, flash_size: Option<FlashSize>) -> (r: u64)
        requires
            region_wf(self@),
        ensures
            r as int == spec_end(self@, flash_size),
    {
        let length: u64 = if name_ends_with_rom(self.name.as_str()) && flash_size.is_some() {
            let f = flash_size.unwrap();
            proof {
                crate::flash::lemma_flash_bytes_bounded(f);
            }
            f.bytes()
        } else {
            self.length
        };
        self.start + length
    }
}

/// The lower-case form of an ASCII upper-case letter; any other character is
/// kept as it is.
pub open spec fn lower_char(c: char) -> char {
    if 'A' <= c && c <= 'Z' {
        ((c as u8) + 32) as char
    } else {
        c
    }
}

/// A chip identifier with hyphens removed and ASCII letters folded to lower
/// case.
pub open spec fn spec_normalize(s: Seq<char>) -> Seq<char>
    decreases s.len(),
{
    if s.len() == 0 {
        Seq::empty()
    } else {
        let rest = spec_normalize(s.drop_last());
        if s.last() == '-' {
            rest
        } else {
            rest.push(lower_char(s.last()))
        }
    }
}

/// Normalizes a chip identifier: strips hyphens and folds to lower case.
pub fn normalize(chip_name: &str) -> (r: String)
    ensures
        r@ == spec_normalize(chip_name@),
{
    let n = chip_name.unicode_len();
    let mut out = String::new();
    let mut i: usize = 0;
    while i < n
        invariant
            i <= n,
            n == chip_name@.len(),
            out@ == spec_normalize(chip_name@.subrange(0, i as int)),
        decreases n - i,
    {
        let c = chip_name.get_char(i);
        if c != '-' {
            let lc: char = if c >= 'A' && c <= 'Z' {
                (c as u8 + 32) as char
            } else {
                c
            };
            assert(lc == lower_char(c));
            push_char(&mut out, lc);
        }
        i = i + 1;
        proof {
            let pre = chip_name@.subrange(0, i - 1);
            let cur = chip_name@.subrange(0, i as int);
            assert(cur.drop_last() =~= pre);
            assert(cur.last() == c);
        }
    }
    proof {
        assert(chip_name@.subrange(0, n as int) =~= chip_name@);
    }
    out
}

/// Whether the chip answers to the queried identifier.
pub open spec fn chip_matches(m: ChipModel, query: Seq<char>) -> bool {
    spec_normalize(m.name) == spec_normalize(query)
}

/// The index of the first chip answering to the queried identifier.
pub open spec fn spec_find_chip(chips: Seq<ChipModel>, query: Seq<char>) -> Option<int>
    decreases chips.len(),
{
    if chips.len() == 0 {
        None
    } else if chip_matches(chips[0], query) {
        Some(0)
    } else {
        match spec_find_chip(chips.drop_first(), query) {
            Some(i) => Some(i + 1),
            None => None,
        }
    }
}

/// `spec_find_chip` returns the first match: a witness at `i` with no match
/// before it pins the result, and no witness at all yields `None`.
pub proof fn lemma_find_chip_first_match(chips: Seq<ChipModel>, query: Seq<char>)
    ensures
        match spec_find_chip(chips, query) {
            Some(i) => {
                &&& 0 <= i < chips.len()
                &&& chip_matches(chips[i], query)
                &&& forall|j: int| 0 <= j < i ==> !chip_matches(#[trigger] chips[j], query)
            },
            None => forall|j: int|
                0 <= j < chips.len() ==> !chip_matches(#[trigger] chips[j], query),
        },
    decreases chips.len(),
{
    if chips.len() > 0 {
        let rest = chips.drop_first();
        lemma_find_chip_first_match(rest, query);
        if !chip_matches(chips[0], query) {
            assert(forall|j: int| 0 <= j < rest.len() ==> #[trigger] chips[j + 1] == rest[j]);
            match spec_find_chip(rest, query) {
                Some(i) => {
                    assert forall|j: int| 0 <= j < i + 1 implies !chip_matches(
                        #[trigger] chips[j],
                        query,
                    ) by {
                        if j > 0 {
                            assert(chips[j] == rest[j - 1]);
                        }
                    }
                },
                None => {
                    assert forall|j: int| 0 <= j < chips.len() implies !chip_matches(
                        #[trigger] chips[j],
                        query,
                    ) by {
                        if j > 0 {
                            assert(chips[j] == rest[j - 1]);
                        }
                    }
                },
            }
        }
    }
}

/// Finds the first catalog chip whose normalized name equals the normalized
/// query, as `spec_find_chip` states.
pub fn find_chip(chips: &Vec<Memory>, chip_name: &str) -> (r: Option<usize>)
    ensures
        match r {
            Some(i) => 0 <= i < chips@.len() && spec_find_chip(chips_view(chips@), chip_name@)
                == Some(i as int),
            None => spec_find_chip(chips_view(chips@), chip_name@) is None,
        },
{
    let query = normalize(chip_name);
    let mut i: usize = 0;
    while i < chips.len()
        invariant
            i <= chips@.len(),
            query@ == spec_normalize(chip_name@),
            forall|j: int|
                0 <= j < i ==> !chip_matches(#[trigger] chips_view(chips@)[j], chip_name@),
        decreases chips@.len() - i,
    {
        let cand = normalize(chips[i].name.as_str());
        proof {
            assert(chips_view(chips@)[i as int] == chips@[i as int]@);
        }
        if string_eq(&cand, &query) {
            proof {
                assert(chip_matches(chips_view(chips@)[i as int], chip_name@));
                lemma_find_chip_first_match(chips_view(chips@), chip_name@);
            }
            return Some(i);
        }
        i = i + 1;
    }
    proof {
        lemma_find_chip_first_match(chips_view(chips@), chip_name@);
    }
    None
}

/// Whether two strings hold the same characters.
pub fn string_eq(a: &String, b: &String) -> (r: bool)
    ensures
        r == (a@ == b@),
{
    a.eq(b)
}

/// A region model from its four attributes.
pub open spec fn spec_region(id: int, name: Seq<char>, start: int, length: int) -> RegionModel {
    RegionModel { id, name, start, length }
}

/// The basic catalog entry for the ESP32.
pub open spec fn spec_esp32() -> ChipModel {
    ChipModel {
        name: "ESP32"@,
        regions: seq![
            spec_region(0, "DRAM"@, 0x3FFB0000, (176 * 1024) as int),
            spec_region(1, "IRAM"@, 0x40080000, (128 * 1024) as int),
            spec_region(2, "DROM"@, 0x3F400000, (4 * 1024 * 1024) as int),
            spec_region(3, "IROM"@, 0x400D0000, (4 * 1024 * 1024) as int),
        ],
    }
}

/// The basic catalog entry for the ESP32-S2.
pub open spec fn spec_esp32_s2() -> ChipModel {
    ChipModel {
        name: "ESP32-S2"@,
        regions: seq![
            spec_region(0, "DRAM"@, 0x3FFB0000, 0x40000000 - 0x3FFB0000),
            spec_region(1, "IRAM"@, 0x40020000, 0x40070000 - 0x40020000),
            spec_region(2, "DROM"@, 0x3F000000, 0x3FF80000 - 0x3F000000),
            spec_region(3, "IROM"@, 0x40080000, 0x40800000 - 0x40080000),
        ],
    }
}

/// The basic catalog entry for the ESP32-S3.
pub open spec fn spec_esp32_s3() -> ChipModel {
    ChipModel {
        name: "ESP32-S3"@,
        regions: seq![
            spec_region(0, "DRAM"@, 0x3FC8_8000, 0x3FCE_FFFF - 0x3FC8_8000),
            spec_region(1, "IRAM"@, 0x4037_8000, 0x403D_FFFF - 0x4037_8000),
            spec_region(2, "DROM"@, 0x3C00_0000, 0x3DFF_FFFF - 0x3C00_0000),
            spec_region(3, "IROM"@, 0x4200_0000, 0x43FF_FFFF - 0x4200_0000),
        ],
    }
}

/// The basic catalog entry for the ESP32-C2.
pub open spec fn spec_esp32_c2() -> ChipModel {
    ChipModel {
        name: "ESP32-C2"@,
        regions: seq![
            spec_region(0, "DRAM"@, 0x3FCA0000, 0x3FCE0000 - 0x3FCA0000),
            spec_region(1, "IRAM"@, 0x4037C000, 0x403C0000 - 0x4037C000),
            spec_region(2, "DROM"@, 0x3C000000, 0x3C400000 - 0x3C000000),
            spec_region(3, "IROM"@, 0x42000000, 0x42400000 - 0x42000000),
        ],
    }
}

/// The basic catalog entry for the ESP32-C3.
pub open spec fn spec_esp32_c3() -> ChipModel {
    ChipModel {
        name: "ESP32-C3"@,
        regions: seq![
            spec_region(0, "DRAM"@, 0x3FC80000, 0x50000),
            spec_region(1, "IRAM"@, 0x4037C000, (400 * 1024) as int),
            spec_region(2, "DROM"@, 0x3C000000, 0x400000),
            spec_region(3, "IROM"@, 0x42000000, 0x400000),
        ],
    }
}

/// The basic catalog entry for the ESP32-C6.
pub open spec fn spec_esp32_c6() -> ChipModel {
    ChipModel {
        name: "ESP32-C6"@,
        regions: seq![
            spec_region(0, "RAM"@, 0x40800000, 0x40880000 - 0x40800000),
            spec_region(1, "ROM"@, 0x42000000, 0x100_0000),
        ],
    }
}

/// The basic catalog entry for the ESP32-H2.
pub open spec fn spec_esp32_h2() -> ChipModel {
    ChipModel {
        name: "ESP32-H2"@,
        regions: seq![
            spec_region(0, "DRAM"@, 0x40800000, 0x40850000 - 0x40800000),
            spec_region(1, "ROM"@, 0x42000000, 0x100_0000),
        ],
    }
}

/// The basic catalog: one entry per known chip, coarse regions.
pub open spec fn spec_catalog() -> Seq<ChipModel> {
    seq![
        spec_esp32(),
        spec_esp32_s2(),
        spec_esp32_s3(),
        spec_esp32_c2(),
        spec_esp32_c3(),
        spec_esp32_c6(),
        spec_esp32_h2(),
    ]
}

/// The expert catalog entry for the ESP32.
pub open spec fn spec_expert_esp32() -> ChipModel {
    ChipModel {
        name: "ESP32"@,
        regions: seq![
            spec_region(0, "DROM"@, 0x3F400000, (4 * 1024 * 1024) as int),
            spec_region(1, "IROM"@, 0x400D0000, (4 * 1024 * 1024) as int),
            spec_region(2, "DRTC_FAST"@, 0x3FF8_0000, 0x3FF8_1FFF - 0x3FF8_0000),
            spec_region(3, "DRAM2"@, 0x3FFA_E000, 0x3FFD_FFFF - 0x3FFA_E000),
            spec_region(4, "DRAM1"@, 0x3FFE_0000, 0x3FFF_FFFF - 0x3FFE_0000),
            spec_region(5, "Cache"@, 0x4007_0000, 0x4007_FFFF - 0x4007_0000),
            spec_region(6, "IRAM0"@, 0x4008_0000, 0x4009_FFFF - 0x4008_0000),
            spec_region(7, "IRAM1"@, 0x400A_0000, 0x400A_FFFF - 0x400A_0000),
            spec_region(8, "IRAM1*"@, 0x400B_8000, 0x400B_FFFF - 0x400B_8000),
            spec_region(9, "IRTC_FAST"@, 0x400C_0000, 0x400C_1FFF - 0x400C_0000),
            spec_region(10, "RTC_SLOW"@, 0x5000_0000, 0x5000_1FFF - 0x5000_0000),
        ],
    }
}

/// The expert catalog entry for the ESP32-S2.
pub open spec fn spec_expert_esp32_s2() -> ChipModel {
    ChipModel {
        name: "ESP32-S2"@,
        regions: seq![
            spec_region(0, "DROM"@, 0x3F000000, 0x3FF80000 - 0x3F000000),
            spec_region(1, "IROM"@, 0x40080000, 0x40800000 - 0x40080000),
            spec_region(2, "DRTC_FAST"@, 0x3FF9_E000, 0x3FF9_FFFF - 0x3FF9_E000),
            spec_region(3, "DRAM0"@, 0x3FFB_0000, 0x3FFB_7FFF - 0x3FFB_0000),
            spec_region(4, "DRAM1"@, 0x3FFB_8000, 0x3FFF_FFFF - 0x3FFB_8000),
            spec_region(5, "IRAM0"@, 0x4002_0000, 0x4002_7FFF - 0x4002_0000),
            spec_region(6, "IRAM1"@, 0x4002_8000, 0x4006_FFFF - 0x4002_8000),
            spec_region(7, "IRTC_FAST"@, 0x4007_0000, 0x4007_1FFF - 0x4007_0000),
            spec_region(8, "RTC_SLOW"@, 0x5000_0000, 0x5000_1FFF - 0x5000_0000),
        ],
    }
}

/// The expert catalog entry for the ESP32-S3.
pub open spec fn spec_expert_esp32_s3() -> ChipModel {
    ChipModel {
        name: "ESP32-S3"@,
        regions: seq![
            spec_region(0, "DROM"@, 0x3C00_0000, 0x3DFF_FFFF - 0x3C00_0000),
            spec_region(1, "IROM"@, 0x4200_0000, 0x43FF_FFFF - 0x4200_0000),
            spec_region(2, "DRAM1"@, 0x3FC8_8000, 0x3FCE_FFFF - 0x3FC8_8000),
            spec_region(3, "DRAM2"@, 0x3FCF_0000, 0x3FCF_FFFF - 0x3FCF_0000),
            spec_region(4, "IRAM1"@, 0x4037_0000, 0x4037_7FFF - 0x4037_0000),
            spec_region(5, "IRAM2"@, 0x4037_8000, 0x403D_FFFF - 0x4037_8000),
            spec_region(6, "RTC_SLOW"@, 0x5000_0000, 0x5000_1FFF - 0x5000_0000),
            spec_region(7, "RTC_FAST"@, 0x600F_E000, 0x600F_FFFF - 0x600F_E000),
        ],
    }
}

/// The expert catalog entry for the ESP32-C2.
pub open spec fn spec_expert_esp32_c2() -> ChipModel {
    ChipModel {
        name: "ESP32-C2"@,
        regions: seq![
            spec_region(0, "DROM"@, 0x3C000000, 0x3C400000 - 0x3C000000),
            spec_region(1, "IROM"@, 0x42000000, 0x42400000 - 0x42000000),
            spec_region(2, "DRAM1"@, 0x3FCA_0000, 0x3FCD_FFFF - 0x3FCA_0000),
            spec_region(3, "IRAM0"@, 0x4037_C000, 0x4037_FFFF - 0x4037_C000),
            spec_region(4, "IRAM1"@, 0x4038_0000, 0x403B_FFFF - 0x4038_0000),
        ],
    }
}

/// The expert catalog entry for the ESP32-C3.  The last two regions share an
/// identifier; the identifier only governs blank-line grouping, so they are
/// reported as one group.
pub open spec fn spec_expert_esp32_c3() -> ChipModel {
    ChipModel {
        name: "ESP32-C3"@,
        regions: seq![
            spec_region(0, "DROM"@, 0x3C000000, 0x400000),
            spec_region(1, "IROM"@, 0x42000000, 0x400000),
            spec_region(2, "DRAM1"@, 0x3FC8_0000, 0x3FCD_FFFF - 0x3FC8_0000),
            spec_region(3, "IRAM0"@, 0x4037_C000, 0x4037_FFFF - 0x4037_C000),
            spec_region(4, "IRAM1"@, 0x4038_0000, 0x403D_FFFF - 0x4038_0000),
            spec_region(4, "RTCFAST"@, 0x5000_0000, 0x5000_1FFF - 0x5000_0000),
        ],
    }
}

/// The expert catalog entry for the ESP32-C6.
pub open spec fn spec_expert_esp32_c6() -> ChipModel {
    ChipModel {
        name: "ESP32-C6"@,
        regions: seq![
            spec_region(0, "RAM"@, 0x40800000, 0x40880000 - 0x40800000),
            spec_region(1, "ROM"@, 0x42000000, 0x100_0000),
            spec_region(2, "LPRAM"@, 0x5000_0000, 0x5000_3FFF - 0x5000_0000),
        ],
    }
}

/// The expert catalog entry for the ESP32-H2.
pub open spec fn spec_expert_esp32_h2() -> ChipModel {
    ChipModel {
        name: "ESP32-H2"@,
        regions: seq![
            spec_region(0, "DRAM"@, 0x40800000, 0x40850000 - 0x40800000),
            spec_region(1, "ROM"@, 0x42000000, 0x100_0000),
            spec_region(2, "LPRAM"@, 0x5000_0000, 0x5000_0FFF - 0x5000_0000),
        ],
    }
}

/// The expert catalog: the same chips with finer-grained sub-regions.
pub open spec fn spec_catalog_expert() -> Seq<ChipModel> {
    seq![
        spec_expert_esp32(),
        spec_expert_esp32_s2(),
        spec_expert_esp32_s3(),
        spec_expert_esp32_c2(),
        spec_expert_esp32_c3(),
        spec_expert_esp32_c6(),
        spec_expert_esp32_h2(),
    ]
}

/// A region value from its four attributes.
fn mk_region(id: usize, name: &str, start: u64, length: u64) -> (r: MemoryRegion)
    ensures
        r@ == spec_region(id as int, name@, start as int, length as int),
{
    let r = MemoryRegion { id, name: name.to_owned(), start, length };
    proof {
        assert(r@ =~= spec_region(id as int, name@, start as int, length as int));
    }
    r
}

/// A chip value from its name and regions.
fn mk_chip(name: &str, regions: Vec<MemoryRegion>) -> (r: Memory)
    ensures
        r@.name == name@,
        r@.regions == regions@.map_values(|x: MemoryRegion| x@),
{
    Memory { name: name.to_owned(), regions }
}

/// The ESP32's basic entry as a value.
fn chip_esp32() -> (r: Memory)
    ensures
        r@ == spec_esp32(),
{
    let mut regions: Vec<MemoryRegion> = Vec::new();
    regions.push(mk_region(0, "DRAM", 0x3FFB0000, 176 * 1024));
    regions.push(mk_region(1, "IRAM", 0x40080000, 128 * 1024));
    regions.push(mk_region(2, "DROM", 0x3F400000, 4 * 1024 * 1024));
    regions.push(mk_region(3, "IROM", 0x400D0000, 4 * 1024 * 1024));
    let m = mk_chip("ESP32", regions);
    proof {
        assert(m@.regions =~= spec_esp32().regions);
        assert(m@ =~~= spec_esp32());
    }
    m
}

/// The ESP32-S2's basic entry as a value.
fn chip_esp32_s2() -> (r: Memory)
    ensures
        r@ == spec_esp32_s2(),
{
    let mut regions: Vec<MemoryRegion> = Vec::new();
    regions.push(mk_region(0, "DRAM", 0x3FFB0000, 0x40000000 - 0x3FFB0000));
    regions.push(mk_region(1, "IRAM", 0x40020000, 0x40070000 - 0x40020000));
    regions.push(mk_region(2, "DROM", 0x3F000000, 0x3FF80000 - 0x3F000000));
    regions.push(mk_region(3, "IROM", 0x40080000, 0x40800000 - 0x40080000));
    let m = mk_chip("ESP32-S2", regions);
    proof {
        assert(m@.regions =~= spec_esp32_s2().regions);
        assert(m@ =~~= spec_esp32_s2());
    }
    m
}

/// The ESP32-S3's basic entry as a value.
fn chip_esp32_s3() -> (r: Memory)
    ensures
        r@ == spec_esp32_s3(),
{
    let mut regions: Vec<MemoryRegion> = Vec::new();
    regions.push(mk_region(0, "DRAM", 0x3FC8_8000, 0x3FCE_FFFF - 0x3FC8_8000));
    regions.push(mk_region(1, "IRAM", 0x4037_8000, 0x403D_FFFF - 0x4037_8000));
    regions.push(mk_region(2, "DROM", 0x3C00_0000, 0x3DFF_FFFF - 0x3C00_0000));
    regions.push(mk_region(3, "IROM", 0x4200_0000, 0x43FF_FFFF - 0x4200_0000));
    let m = mk_chip("ESP32-S3", regions);
    proof {
        assert(m@.regions =~= spec_esp32_s3().regions);
        assert(m@ =~~= spec_esp32_s3());
    }
    m
}

/// The ESP32-C2's basic entry as a value.
fn chip_esp32_c2() -> (r: Memory)
    ensures
        r@ == spec_esp32_c2(),
{
    let mut regions: Vec<MemoryRegion> = Vec::new();
    regions.push(mk_region(0, "DRAM", 0x3FCA0000, 0x3FCE0000 - 0x3FCA0000));
    regions.push(mk_region(1, "IRAM", 0x4037C000, 0x403C0000 - 0x4037C000));
    regions.push(mk_region(2, "DROM", 0x3C000000, 0x3C400000 - 0x3C000000));
    regions.push(mk_region(3, "IROM", 0x42000000, 0x42400000 - 0x42000000));
    let m = mk_chip("ESP32-C2", regions);
    proof {
        assert(m@.regions =~= spec_esp32_c2().regions);
        assert(m@ =~~= spec_esp32_c2());
    }
    m
}

/// The ESP32-C3's basic entry as a value.
fn chip_esp32_c3() -> (r: Memory)
    ensures
        r@ == spec_esp32_c3(),
{
    let mut regions: Vec<MemoryRegion> = Vec::new();
    regions.push(mk_region(0, "DRAM", 0x3FC80000, 0x50000));
    regions.push(mk_region(1, "IRAM", 0x4037C000, 400 * 1024));
    regions.push(mk_region(2, "DROM", 0x3C000000, 0x400000));
    regions.push(mk_region(3, "IROM", 0x42000000, 0x400000));
    let m = mk_chip("ESP32-C3", regions);
    proof {
        assert(m@.regions =~= spec_esp32_c3().regions);
        assert(m@ =~~= spec_esp32_c3());
    }
    m
}

/// The ESP32-C6's basic entry as a value.
fn chip_esp32_c6() -> (r: Memory)
    ensures
        r@ == spec_esp32_c6(),
{
    let mut regions: Vec<MemoryRegion> = Vec::new();
    regions.push(mk_region(0, "RAM", 0x40800000, 0x40880000 - 0x40800000));
    regions.push(mk_region(1, "ROM", 0x42000000, 0x100_0000));
    let m = mk_chip("ESP32-C6", regions);
    proof {
        assert(m@.regions =~= spec_esp32_c6().regions);
        assert(m@ =~~= spec_esp32_c6());
    }
    m
}

/// The ESP32-H2's basic entry as a value.
fn chip_esp32_h2() -> (r: Memory)
    ensures
        r@ == spec_esp32_h2(),
{
    let mut regions: Vec<MemoryRegion> = Vec::new();
    regions.push(mk_region(0, "DRAM", 0x40800000, 0x40850000 - 0x40800000));
    regions.push(mk_region(1, "ROM", 0x42000000, 0x100_0000));
    let m = mk_chip("ESP32-H2", regions);
    proof {
        assert(m@.regions =~= spec_esp32_h2().regions);
        assert(m@ =~~= spec_esp32_h2());
    }
    m
}

/// The basic catalog as values, equal to `spec_catalog`.
pub fn memory_catalog() -> (r: Vec<Memory>)
    ensures
        chips_view(r@) == spec_catalog(),
{
    let mut v: Vec<Memory> = Vec::new();
    v.push(chip_esp32());
    v.push(chip_esp32_s2());
    v.push(chip_esp32_s3());
    v.push(chip_esp32_c2());
    v.push(chip_esp32_c3());
    v.push(chip_esp32_c6());
    v.push(chip_esp32_h2());
    proof {
        assert(chips_view(v@) =~= spec_catalog());
    }
    v
}

/// The ESP32's expert entry as a value.
fn chip_expert_esp32() -> (r: Memory)
    ensures
        r@ == spec_expert_esp32(),
{
    let mut regions: Vec<MemoryRegion> = Vec::new();
    regions.push(mk_region(0, "DROM", 0x3F400000, 4 * 1024 * 1024));
    regions.push(mk_region(1, "IROM", 0x400D0000, 4 * 1024 * 1024));
    regions.push(mk_region(2, "DRTC_FAST", 0x3FF8_0000, 0x3FF8_1FFF - 0x3FF8_0000));
    regions.push(mk_region(3, "DRAM2", 0x3FFA_E000, 0x3FFD_FFFF - 0x3FFA_E000));
    regions.push(mk_region(4, "DRAM1", 0x3FFE_0000, 0x3FFF_FFFF - 0x3FFE_0000));
    regions.push(mk_region(5, "Cache", 0x4007_0000, 0x4007_FFFF - 0x4007_0000));
    regions.push(mk_region(6, "IRAM0", 0x4008_0000, 0x4009_FFFF - 0x4008_0000));
    regions.push(mk_region(7, "IRAM1", 0x400A_0000, 0x400A_FFFF - 0x400A_0000));
    regions.push(mk_region(8, "IRAM1*", 0x400B_8000, 0x400B_FFFF - 0x400B_8000));
    regions.push(mk_region(9, "IRTC_FAST", 0x400C_0000, 0x400C_1FFF - 0x400C_0000));
    regions.push(mk_region(10, "RTC_SLOW", 0x5000_0000, 0x5000_1FFF - 0x5000_0000));
    let m = mk_chip("ESP32", regions);
    proof {
        assert(m@.regions =~= spec_expert_esp32().regions);
        assert(m@ =~~= spec_expert_esp32());
    }
    m
}

/// The ESP32-S2's expert entry as a value.
fn chip_expert_esp32_s2() -> (r: Memory)
    ensures
        r@ == spec_expert_esp32_s2(),
{
    let mut regions: Vec<MemoryRegion> = Vec::new();
    regions.push(mk_region(0, "DROM", 0x3F000000, 0x3FF80000 - 0x3F000000));
    regions.push(mk_region(1, "IROM", 0x40080000, 0x40800000 - 0x40080000));
    regions.push(mk_region(2, "DRTC_FAST", 0x3FF9_E000, 0x3FF9_FFFF - 0x3FF9_E000));
    regions.push(mk_region(3, "DRAM0", 0x3FFB_0000, 0x3FFB_7FFF - 0x3FFB_0000));
    regions.push(mk_region(4, "DRAM1", 0x3FFB_8000, 0x3FFF_FFFF - 0x3FFB_8000));
    regions.push(mk_region(5, "IRAM0", 0x4002_0000, 0x4002_7FFF - 0x4002_0000));
    regions.push(mk_region(6, "IRAM1", 0x4002_8000, 0x4006_FFFF - 0x4002_8000));
    regions.push(mk_region(7, "IRTC_FAST", 0x4007_0000, 0x4007_1FFF - 0x4007_0000));
    regions.push(mk_region(8, "RTC_SLOW", 0x5000_0000, 0x5000_1FFF - 0x5000_0000));
    let m = mk_chip("ESP32-S2", regions);
    proof {
        assert(m@.regions =~= spec_expert_esp32_s2().regions);
        assert(m@ =~~= spec_expert_esp32_s2());
    }
    m
}

/// The ESP32-S3's expert entry as a value.
fn chip_expert_esp32_s3() -> (r: Memory)
    ensures
        r@ == spec_expert_esp32_s3(),
{
    let mut regions: Vec<MemoryRegion> = Vec::new();
    regions.push(mk_region(0, "DROM", 0x3C00_0000, 0x3DFF_FFFF - 0x3C00_0000));
    regions.push(mk_region(1, "IROM", 0x4200_0000, 0x43FF_FFFF - 0x4200_0000));
    regions.push(mk_region(2, "DRAM1", 0x3FC8_8000, 0x3FCE_FFFF - 0x3FC8_8000));
    regions.push(mk_region(3, "DRAM2", 0x3FCF_0000, 0x3FCF_FFFF - 0x3FCF_0000));
    regions.push(mk_region(4, "IRAM1", 0x4037_0000, 0x4037_7FFF - 0x4037_0000));
    regions.push(mk_region(5, "IRAM2", 0x4037_8000, 0x403D_FFFF - 0x4037_8000));
    regions.push(mk_region(6, "RTC_SLOW", 0x5000_0000, 0x5000_1FFF - 0x5000_0000));
    regions.push(mk_region(7, "RTC_FAST", 0x600F_E000, 0x600F_FFFF - 0x600F_E000));
    let m = mk_chip("ESP32-S3", regions);
    proof {
        assert(m@.regions =~= spec_expert_esp32_s3().regions);
        assert(m@ =~~= spec_expert_esp32_s3());
    }
    m
}

/// The ESP32-C2's expert entry as a value.
fn chip_expert_esp32_c2() -> (r: Memory)
    ensures
        r@ == spec_expert_esp32_c2(),
{
    let mut regions: Vec<MemoryRegion> = Vec::new();
    regions.push(mk_region(0, "DROM", 0x3C000000, 0x3C400000 - 0x3C000000));
    regions.push(mk_region(1, "IROM", 0x42000000, 0x42400000 - 0x42000000));
    regions.push(mk_region(2, "DRAM1", 0x3FCA_0000, 0x3FCD_FFFF - 0x3FCA_0000));
    regions.push(mk_region(3, "IRAM0", 0x4037_C000, 0x4037_FFFF - 0x4037_C000));
    regions.push(mk_region(4, "IRAM1", 0x4038_0000, 0x403B_FFFF - 0x4038_0000));
    let m = mk_chip("ESP32-C2", regions);
    proof {
        assert(m@.regions =~= spec_expert_esp32_c2().regions);
        assert(m@ =~~= spec_expert_esp32_c2());
    }
    m
}

/// The ESP32-C3's expert entry as a value.
fn chip_expert_esp32_c3() -> (r: Memory)
    ensures
        r@ == spec_expert_esp32_c3(),
{
    let mut regions: Vec<MemoryRegion> = Vec::new();
    regions.push(mk_region(0, "DROM", 0x3C000000, 0x400000));
    regions.push(mk_region(1, "IROM", 0x42000000, 0x400000));
    regions.push(mk_region(2, "DRAM1", 0x3FC8_0000, 0x3FCD_FFFF - 0x3FC8_0000));
    regions.push(mk_region(3, "IRAM0", 0x4037_C000, 0x4037_FFFF - 0x4037_C000));
    regions.push(mk_region(4, "IRAM1", 0x4038_0000, 0x403D_FFFF - 0x4038_0000));
    regions.push(mk_region(4, "RTCFAST", 0x5000_0000, 0x5000_1FFF - 0x5000_0000));
    let m = mk_chip("ESP32-C3", regions);
    proof {
        assert(m@.regions =~= spec_expert_esp32_c3().regions);
        assert(m@ =~~= spec_expert_esp32_c3());
    }
    m
}

/// The ESP32-C6's expert entry as a value.
fn chip_expert_esp32_c6() -> (r: Memory)
    ensures
        r@ == spec_expert_esp32_c6(),
{
    let mut regions: Vec<MemoryRegion> = Vec::new();
    regions.push(mk_region(0, "RAM", 0x40800000, 0x40880000 - 0x40800000));
    regions.push(mk_region(1, "ROM", 0x42000000, 0x100_0000));
    regions.push(mk_region(2, "LPRAM", 0x5000_0000, 0x5000_3FFF - 0x5000_0000));
    let m = mk_chip("ESP32-C6", regions);
    proof {
        assert(m@.regions =~= spec_expert_esp32_c6().regions);
        assert(m@ =~~= spec_expert_esp32_c6());
    }
    m
}

/// The ESP32-H2's expert entry as a value.
fn chip_expert_esp32_h2() -> (r: Memory)
    ensures
        r@ == spec_expert_esp32_h2(),
{
    let mut regions: Vec<MemoryRegion> = Vec::new();
    regions.push(mk_region(0, "DRAM", 0x40800000, 0x40850000 - 0x40800000));
    regions.push(mk_region(1, "ROM", 0x42000000, 0x100_0000));
    regions.push(mk_region(2, "LPRAM", 0x5000_0000, 0x5000_0FFF - 0x5000_0000));
    let m = mk_chip("ESP32-H2", regions);
    proof {
        assert(m@.regions =~= spec_expert_esp32_h2().regions);
        assert(m@ =~~= spec_expert_esp32_h2());
    }
    m
}

/// The expert catalog as values, equal to `spec_catalog_expert`.
pub fn memory_catalog_expert() -> (r: Vec<Memory>)
    ensures
        chips_view(r@) == spec_catalog_expert(),
{
    let mut v: Vec<Memory> = Vec::new();
    v.push(chip_expert_esp32());
    v.push(chip_expert_esp32_s2());
    v.push(chip_expert_esp32_s3());
    v.push(chip_expert_esp32_c2());
    v.push(chip_expert_esp32_c3());
    v.push(chip_expert_esp32_c6());
    v.push(chip_expert_esp32_h2());
    proof {
        assert(chips_view(v@) =~= spec_catalog_expert());
    }
    v
}

/// Every chip of both catalogs is well formed: each region's end fits in a
/// 64-bit address whatever flash capacity is supplied.
pub proof fn lemma_catalog_wf()
    ensures
        forall|c: int|
            0 <= c < spec_catalog().len() ==> chip_wf(#[trigger] spec_catalog()[c]),
        forall|c: int|
            0 <= c < spec_catalog_expert().len() ==> chip_wf(#[trigger] spec_catalog_expert()[c]),
{
    assert forall|c: int| 0 <= c < spec_catalog().len() implies chip_wf(
        #[trigger] spec_catalog()[c],
    ) by {
        let m = spec_catalog()[c];
        assert forall|i: int| 0 <= i < m.regions.len() implies region_wf(
            #[trigger] m.regions[i],
        ) by {
            assert(0 <= c < 7);
        }
    }
    assert forall|c: int| 0 <= c < spec_catalog_expert().len() implies chip_wf(
        #[trigger] spec_catalog_expert()[c],
    ) by {
        let m = spec_catalog_expert()[c];
        assert forall|i: int| 0 <= i < m.regions.len() implies region_wf(
            #[trigger] m.regions[i],
        ) by {
            assert(0 <= c < 7);
        }
    }
}

} // verus!
