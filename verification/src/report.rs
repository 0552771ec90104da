//! The report formatter: discard non-loaded sections, sort by address, size
//! the name column, group consecutive sections by containing region with a
//! blank separator on region change, and emit one line per section.

use crate::catalog::{
    chip_wf, chips_view, find_chip, lemma_catalog_wf, memory_catalog, memory_catalog_expert,
    region_wf, spec_catalog, spec_catalog_expert, spec_end, spec_find_chip, ChipModel, Memory,
    RegionModel,
};
use crate::flash::FlashSize;
use crate::render::{render_bar, spec_bar};
use crate::resolve::{
    lemma_resolve_first_match, region_contains, regions_view, resolve, spec_resolve,
};
use crate::textfmt::{
    dec_string, hex_string, pad_left, pad_right, push_char, push_spaces, spec_dec, spec_hex,
};
use vstd::prelude::*;
use vstd::string::StrSliceExecFns;
use vstd::string::StringExecFns;

verus! {

/// A named, addressed, sized contiguous range of the inspected binary.
pub struct Section {
    /// Section name as the object format reports it.
    pub name: String,
    /// Start address.
    pub address: u64,
    /// Size in bytes.
    pub size: u64,
}

/// The mathematical value of a section.
#[verifier::ext_equal]
pub struct SectionModel {
    pub name: Seq<char>,
    pub address: int,
    pub size: int,
}

impl View for Section {
    type V = SectionModel;

    open spec fn view(&self) -> SectionModel {
        SectionModel { name: self.name@, address: self.address as int, size: self.size as int }
    }
}

/// The models of a list of sections.
pub open spec fn sections_view(s: Seq<Section>) -> Seq<SectionModel> {
    s.map_values(|x: Section| x@)
}

/// Whether a section is retained: sections at address zero or of size zero
/// are non-loaded metadata and never reported.
pub open spec fn keep_section(s: SectionModel) -> bool {
    s.address != 0 && s.size != 0
}

/// The retained sections, in input order.
pub open spec fn spec_filter(s: Seq<SectionModel>) -> Seq<SectionModel>
    decreases s.len(),
{
    if s.len() == 0 {
        Seq::empty()
    } else {
        let rest = spec_filter(s.drop_last());
        if keep_section(s.last()) {
            rest.push(s.last())
        } else {
            rest
        }
    }
}

/// Every element the filter keeps satisfies the retention predicate.
pub proof fn lemma_filter_keeps_only(s: Seq<SectionModel>)
    ensures
        forall|i: int| 0 <= i < spec_filter(s).len() ==> keep_section(#[trigger] spec_filter(s)[i]),
    decreases s.len(),
{
    if s.len() > 0 {
        lemma_filter_keeps_only(s.drop_last());
        let rest = spec_filter(s.drop_last());
        assert forall|i: int| 0 <= i < spec_filter(s).len() implies keep_section(
            #[trigger] spec_filter(s)[i],
        ) by {
            if i < rest.len() {
                assert(spec_filter(s)[i] == rest[i]);
            }
        }
    }
}

/// Stable insertion of `x` into `s` from the right: `x` lands after every
/// element whose address does not exceed its own.
pub open spec fn spec_insert(s: Seq<SectionModel>, x: SectionModel) -> Seq<SectionModel>
    decreases s.len(),
{
    if s.len() == 0 {
        seq![x]
    } else if s.last().address > x.address {
        spec_insert(s.drop_last(), x).push(s.last())
    } else {
        s.push(x)
    }
}

/// Stable insertion sort by ascending address; elements of equal address keep
/// their input order.
pub open spec fn spec_sort(s: Seq<SectionModel>) -> Seq<SectionModel>
    decreases s.len(),
{
    if s.len() == 0 {
        Seq::empty()
    } else {
        spec_insert(spec_sort(s.drop_last()), s.last())
    }
}

/// The sections the report prints, in print order.
pub open spec fn spec_printed(sections: Seq<SectionModel>) -> Seq<SectionModel> {
    spec_sort(spec_filter(sections))
}

/// Non-decreasing address order.
pub open spec fn sorted_by_address(s: Seq<SectionModel>) -> bool {
    forall|i: int, j: int| 0 <= i <= j < s.len() ==> s[i].address <= s[j].address
}

/// Insertion keeps any pointwise property of the elements.
proof fn lemma_insert_preserves_all(
    s: Seq<SectionModel>,
    x: SectionModel,
    pred: spec_fn(SectionModel) -> bool,
)
    requires
        forall|i: int| 0 <= i < s.len() ==> pred(#[trigger] s[i]),
        pred(x),
    ensures
        spec_insert(s, x).len() == s.len() + 1,
        forall|i: int| 0 <= i < spec_insert(s, x).len() ==> pred(#[trigger] spec_insert(s, x)[i]),
    decreases s.len(),
{
    if s.len() > 0 && s.last().address > x.address {
        assert(forall|i: int| 0 <= i < s.drop_last().len() ==> pred(#[trigger] s.drop_last()[i]));
        lemma_insert_preserves_all(s.drop_last(), x, pred);
    }
}

/// Sorting keeps any pointwise property of the elements.
proof fn lemma_sort_preserves_all(s: Seq<SectionModel>, pred: spec_fn(SectionModel) -> bool)
    requires
        forall|i: int| 0 <= i < s.len() ==> pred(#[trigger] s[i]),
    ensures
        spec_sort(s).len() == s.len(),
        forall|i: int| 0 <= i < spec_sort(s).len() ==> pred(#[trigger] spec_sort(s)[i]),
    decreases s.len(),
{
    if s.len() > 0 {
        assert(forall|i: int| 0 <= i < s.drop_last().len() ==> pred(#[trigger] s.drop_last()[i]));
        lemma_sort_preserves_all(s.drop_last(), pred);
        lemma_insert_preserves_all(spec_sort(s.drop_last()), s.last(), pred);
    }
}

/// Insertion into an address-sorted list keeps it address-sorted.
proof fn lemma_insert_sorted(s: Seq<SectionModel>, x: SectionModel)
    requires
        sorted_by_address(s),
    ensures
        sorted_by_address(spec_insert(s, x)),
    decreases s.len(),
{
    if s.len() > 0 && s.last().address > x.address {
        assert(sorted_by_address(s.drop_last()));
        lemma_insert_sorted(s.drop_last(), x);
        let bound = s.last().address;
        let pred = |y: SectionModel| y.address <= bound;
        assert(forall|i: int|
            0 <= i < s.drop_last().len() ==> pred(#[trigger] s.drop_last()[i]));
        lemma_insert_preserves_all(s.drop_last(), x, pred);
        let out = spec_insert(s, x);
        let inner = spec_insert(s.drop_last(), x);
        assert forall|i: int, j: int| 0 <= i <= j < out.len() implies out[i].address
            <= out[j].address by {
            if j < out.len() - 1 {
                assert(out[i] == inner[i] && out[j] == inner[j]);
            } else if i < out.len() - 1 {
                assert(pred(inner[i]));
            }
        }
    }
}

/// The printed order is non-decreasing in address: insertion sort yields a
/// sorted list.
pub proof fn lemma_sort_sorted(s: Seq<SectionModel>)
    ensures
        sorted_by_address(spec_sort(s)),
    decreases s.len(),
{
    if s.len() > 0 {
        lemma_sort_sorted(s.drop_last());
        lemma_insert_sorted(spec_sort(s.drop_last()), s.last());
    }
}

/// The report never includes a line for a section at address zero or of size
/// zero: every printed section has a nonzero address and size.
pub proof fn lemma_printed_nonzero(sections: Seq<SectionModel>)
    ensures
        forall|i: int|
            0 <= i < spec_printed(sections).len() ==> keep_section(
                #[trigger] spec_printed(sections)[i],
            ),
{
    lemma_filter_keeps_only(sections);
    lemma_sort_preserves_all(spec_filter(sections), |y: SectionModel| keep_section(y));
}

/// Printed sections stand in non-decreasing address order.
pub proof fn lemma_printed_sorted(sections: Seq<SectionModel>)
    ensures
        sorted_by_address(spec_printed(sections)),
{
    lemma_sort_sorted(spec_filter(sections));
}

/// Where an element lands: inserting before the tail whose addresses all
/// exceed the new element's splits the list at that point.
proof fn lemma_insert_at(s: Seq<SectionModel>, x: SectionModel, j: int)
    requires
        0 <= j <= s.len(),
        forall|k: int| j <= k < s.len() ==> (#[trigger] s[k]).address > x.address,
        j > 0 ==> s[j - 1].address <= x.address,
    ensures
        spec_insert(s, x) == s.subrange(0, j) + seq![x] + s.subrange(j, s.len() as int),
    decreases s.len(),
{
    if j == s.len() {
        assert(spec_insert(s, x) =~= s.subrange(0, j) + seq![x] + s.subrange(
            j,
            s.len() as int,
        ));
    } else {
        assert(s.last().address > x.address);
        let inner = s.drop_last();
        assert(forall|k: int| j <= k < inner.len() ==> (#[trigger] inner[k]).address > x.address);
        lemma_insert_at(inner, x, j);
        assert(inner.subrange(0, j) =~= s.subrange(0, j));
        assert(spec_insert(s, x) =~= s.subrange(0, j) + seq![x] + s.subrange(
            j,
            s.len() as int,
        ));
    }
}

/// Discards sections with address zero or size zero, keeping input order.
pub fn filter_sections(sections: Vec<Section>) -> (r: Vec<Section>)
    ensures
        sections_view(r@) == spec_filter(sections_view(sections@)),
{
    let ghost orig = sections_view(sections@);
    let mut rest = sections;
    let mut out: Vec<Section> = Vec::new();
    let ghost mut done: Seq<SectionModel> = Seq::empty();
    proof {
        assert(done + sections_view(rest@) =~= orig);
        assert(sections_view(out@) =~= spec_filter(done));
    }
    while rest.len() > 0
        invariant
            done + sections_view(rest@) == orig,
            sections_view(out@) == spec_filter(done),
        decreases rest@.len(),
    {
        let ghost old_rest = rest@;
        let ghost old_out = out@;
        let x = rest.remove(0);
        let ghost xm = x@;
        let keep = x.address != 0 && x.size != 0;
        if keep {
            out.push(x);
        }
        proof {
            let done2 = done.push(xm);
            assert(done2.drop_last() =~= done);
            assert(keep == keep_section(xm));
            if keep {
                assert(sections_view(out@) =~= sections_view(old_out).push(xm));
            }
            assert(sections_view(out@) =~= spec_filter(done2));
            assert(sections_view(old_rest) =~= seq![xm] + sections_view(rest@));
            done = done2;
            assert(done + sections_view(rest@) =~= orig);
        }
    }
    proof {
        assert(sections_view(rest@) =~= Seq::empty());
        assert(done =~= orig);
    }
    out
}

/// Sorts sections by ascending address with a stable insertion sort, as
/// `spec_sort` states.
pub fn sort_sections(sections: Vec<Section>) -> (r: Vec<Section>)
    ensures
        sections_view(r@) == spec_sort(sections_view(sections@)),
{
    let ghost orig = sections_view(sections@);
    let mut rest = sections;
    let mut out: Vec<Section> = Vec::new();
    let ghost mut done: Seq<SectionModel> = Seq::empty();
    proof {
        assert(done + sections_view(rest@) =~= orig);
        assert(sections_view(out@) =~= spec_sort(done));
    }
    while rest.len() > 0
        invariant
            done + sections_view(rest@) == orig,
            sections_view(out@) == spec_sort(done),
        decreases rest@.len(),
    {
        let ghost old_rest = rest@;
        let x = rest.remove(0);
        let ghost xm = x@;
        let ghost before = sections_view(out@);
        let mut j: usize = out.len();
        while j > 0 && out[j - 1].address > x.address
            invariant
                j <= out@.len(),
                sections_view(out@) == before,
                forall|k: int| j <= k < out@.len() ==> (#[trigger] out@[k]).address > x.address,
            decreases j,
        {
            j = j - 1;
        }
        proof {
            assert forall|k: int| j <= k < before.len() implies (#[trigger] before[k]).address
                > xm.address by {
                assert(before[k] == out@[k]@);
            }
            if j > 0 {
                assert(before[j - 1] == out@[j - 1]@);
            }
        }
        out.insert(j, x);
        proof {
            lemma_insert_at(before, xm, j as int);
            assert(sections_view(out@) =~= before.subrange(0, j as int) + seq![xm]
                + before.subrange(j as int, before.len() as int));
            let done2 = done.push(xm);
            assert(done2.drop_last() =~= done);
            assert(sections_view(out@) =~= spec_sort(done2));
            assert(sections_view(old_rest) =~= seq![xm] + sections_view(rest@));
            done = done2;
            assert(done + sections_view(rest@) =~= orig);
        }
    }
    proof {
        assert(sections_view(rest@) =~= Seq::empty());
        assert(done =~= orig);
    }
    out
}

/// The widest section name among those to print; zero for an empty list.
pub open spec fn spec_max_name_len(s: Seq<SectionModel>) -> int
    decreases s.len(),
{
    if s.len() == 0 {
        0
    } else {
        let m = spec_max_name_len(s.drop_last());
        if s.last().name.len() > m {
            s.last().name.len() as int
        } else {
            m
        }
    }
}

/// The display width of the name column: the longest section name.
pub fn max_name_len(sections: &Vec<Section>) -> (r: usize)
    ensures
        r as int == spec_max_name_len(sections_view(sections@)),
{
    let mut m: usize = 0;
    let mut i: usize = 0;
    while i < sections.len()
        invariant
            i <= sections@.len(),
            m as int == spec_max_name_len(sections_view(sections@).subrange(0, i as int)),
        decreases sections@.len() - i,
    {
        let l = sections[i].name.as_str().unicode_len();
        proof {
            assert(sections_view(sections@)[i as int] == sections@[i as int]@);
        }
        if l > m {
            m = l;
        }
        i = i + 1;
        proof {
            let cur = sections_view(sections@).subrange(0, i as int);
            assert(cur.drop_last() =~= sections_view(sections@).subrange(0, i - 1));
            assert(cur.last() == sections_view(sections@)[i - 1]);
        }
    }
    proof {
        assert(sections_view(sections@).subrange(0, sections@.len() as int) =~= sections_view(
            sections@,
        ));
    }
    m
}

/// The three base columns of a line: the name left-aligned in the name
/// column, the address in hexadecimal right-aligned to eight cells, the size
/// in decimal right-aligned to seven cells, single blanks between.
pub open spec fn spec_base_columns(s: SectionModel, name_w: int) -> Seq<char> {
    pad_right(s.name, name_w) + seq![' '] + pad_left(spec_hex(s.address), 8) + seq![' ']
        + pad_left(spec_dec(s.size), 7)
}

/// One report line: the base columns alone for an unresolved section, and
/// for a resolved one also the region name left-aligned to eight cells and
/// the proportional bar.
pub open spec fn spec_line(
    s: SectionModel,
    reg: Option<RegionModel>,
    flash_size: Option<FlashSize>,
    name_w: int,
    bar_w: int,
) -> Seq<char> {
    match reg {
        None => spec_base_columns(s, name_w),
        Some(r) => spec_base_columns(s, name_w) + seq![' '] + pad_right(r.name, 8) + seq![' ']
            + spec_bar(r.start, spec_end(r, flash_size), s.address, s.size, bar_w),
    }
}

/// Renders the three base columns of a section's line.
fn base_columns(s: &Section, name_w: usize) -> (r: String)
    ensures
        r@ == spec_base_columns(s@, name_w as int),
{
    let mut line = String::new();
    line.append(s.name.as_str());
    let l = s.name.as_str().unicode_len();
    if l < name_w {
        push_spaces(&mut line, name_w - l);
    }
    push_char(&mut line, ' ');
    let hex = hex_string(s.address);
    let hl = hex.as_str().unicode_len();
    if hl < 8 {
        push_spaces(&mut line, 8 - hl);
    }
    line.append(hex.as_str());
    push_char(&mut line, ' ');
    let dec = dec_string(s.size);
    let dl = dec.as_str().unicode_len();
    if dl < 7 {
        push_spaces(&mut line, 7 - dl);
    }
    line.append(dec.as_str());
    proof {
        assert(line@ =~= spec_base_columns(s@, name_w as int));
    }
    line
}

/// The tracked identifier before any section is printed: a sentinel no
/// catalog region uses in practice, so the first resolved section opens a
/// group.
pub open spec fn no_region_yet() -> int {
    usize::MAX as int
}

/// The lines a single section contributes: a blank separator when it
/// resolves to a region whose identifier differs from the tracked one,
/// then its own line.
pub open spec fn spec_entry(
    s: SectionModel,
    regions: Seq<RegionModel>,
    flash_size: Option<FlashSize>,
    name_w: int,
    bar_w: int,
    last: int,
) -> Seq<Seq<char>> {
    match spec_resolve(regions, flash_size, s.address, s.size) {
        Some(i) => if regions[i].id != last {
            seq![Seq::empty(), spec_line(s, Some(regions[i]), flash_size, name_w, bar_w)]
        } else {
            seq![spec_line(s, Some(regions[i]), flash_size, name_w, bar_w)]
        },
        None => seq![spec_line(s, None, flash_size, name_w, bar_w)],
    }
}

/// The tracked identifier after printing one section: a resolved section
/// leaves its region's identifier, an unresolved one changes nothing.
pub open spec fn spec_next_last(
    s: SectionModel,
    regions: Seq<RegionModel>,
    flash_size: Option<FlashSize>,
    last: int,
) -> int {
    match spec_resolve(regions, flash_size, s.address, s.size) {
        Some(i) => regions[i].id,
        None => last,
    }
}

/// The report lines for a list of sections, threading the tracked region
/// identifier through the entries.
pub open spec fn spec_lines_from(
    ss: Seq<SectionModel>,
    regions: Seq<RegionModel>,
    flash_size: Option<FlashSize>,
    name_w: int,
    bar_w: int,
    last: int,
) -> Seq<Seq<char>>
    decreases ss.len(),
{
    if ss.len() == 0 {
        Seq::empty()
    } else {
        spec_entry(ss[0], regions, flash_size, name_w, bar_w, last) + spec_lines_from(
            ss.drop_first(),
            regions,
            flash_size,
            name_w,
            bar_w,
            spec_next_last(ss[0], regions, flash_size, last),
        )
    }
}

/// The tracked identifier after printing a whole list of sections.
pub open spec fn spec_last_after(
    ss: Seq<SectionModel>,
    regions: Seq<RegionModel>,
    flash_size: Option<FlashSize>,
    last: int,
) -> int
    decreases ss.len(),
{
    if ss.len() == 0 {
        last
    } else {
        spec_last_after(
            ss.drop_first(),
            regions,
            flash_size,
            spec_next_last(ss[0], regions, flash_size, last),
        )
    }
}

/// Appending one section advances the tracked identifier by one step.
proof fn lemma_last_after_snoc(
    ss: Seq<SectionModel>,
    x: SectionModel,
    regions: Seq<RegionModel>,
    flash_size: Option<FlashSize>,
    last: int,
)
    ensures
        spec_last_after(ss.push(x), regions, flash_size, last) == spec_next_last(
            x,
            regions,
            flash_size,
            spec_last_after(ss, regions, flash_size, last),
        ),
    decreases ss.len(),
{
    reveal_with_fuel(spec_last_after, 3);
    if ss.len() == 0 {
        assert(ss.push(x).drop_first() =~= Seq::<SectionModel>::empty());
        assert(ss.push(x)[0] == x);
    } else {
        assert(ss.push(x).drop_first() =~= ss.drop_first().push(x));
        assert(ss.push(x)[0] == ss[0]);
        lemma_last_after_snoc(
            ss.drop_first(),
            x,
            regions,
            flash_size,
            spec_next_last(ss[0], regions, flash_size, last),
        );
    }
}

/// Appending one section appends exactly its entry to the report lines.
proof fn lemma_lines_from_snoc(
    ss: Seq<SectionModel>,
    x: SectionModel,
    regions: Seq<RegionModel>,
    flash_size: Option<FlashSize>,
    name_w: int,
    bar_w: int,
    last: int,
)
    ensures
        spec_lines_from(ss.push(x), regions, flash_size, name_w, bar_w, last)
            == spec_lines_from(ss, regions, flash_size, name_w, bar_w, last) + spec_entry(
            x,
            regions,
            flash_size,
            name_w,
            bar_w,
            spec_last_after(ss, regions, flash_size, last),
        ),
    decreases ss.len(),
{
    reveal_with_fuel(spec_lines_from, 3);
    reveal_with_fuel(spec_last_after, 3);
    if ss.len() == 0 {
        assert(ss.push(x).drop_first() =~= Seq::<SectionModel>::empty());
        assert(ss.push(x)[0] == x);
        assert(spec_lines_from(ss.push(x), regions, flash_size, name_w, bar_w, last)
            =~= spec_lines_from(ss, regions, flash_size, name_w, bar_w, last) + spec_entry(
            x,
            regions,
            flash_size,
            name_w,
            bar_w,
            spec_last_after(ss, regions, flash_size, last),
        ));
    } else {
        assert(ss.push(x).drop_first() =~= ss.drop_first().push(x));
        assert(ss.push(x)[0] == ss[0]);
        let next = spec_next_last(ss[0], regions, flash_size, last);
        lemma_lines_from_snoc(ss.drop_first(), x, regions, flash_size, name_w, bar_w, next);
        assert(spec_lines_from(ss.push(x), regions, flash_size, name_w, bar_w, last)
            =~= spec_lines_from(ss, regions, flash_size, name_w, bar_w, last) + spec_entry(
            x,
            regions,
            flash_size,
            name_w,
            bar_w,
            spec_last_after(ss, regions, flash_size, last),
        ));
    }
}

/// Whether the configured line width leaves room for the bar column.  The
/// bar is drawn only for sections that resolve to a region, so the bound is
/// needed only when one does.
pub open spec fn report_width_ok(
    sections: Seq<SectionModel>,
    chip: ChipModel,
    flash_size: Option<FlashSize>,
    width: int,
) -> bool {
    (exists|k: int|
        0 <= k < spec_printed(sections).len() && spec_resolve(
            chip.regions,
            flash_size,
            (#[trigger] spec_printed(sections)[k]).address,
            spec_printed(sections)[k].size,
        ) is Some) ==> width >= spec_max_name_len(spec_printed(sections)) + 27
}

/// The whole report for a chip: the printed sections in order, each
/// contributing its entry, with the name column sized to the longest name
/// and the bar column taking the width left by the other columns.
pub open spec fn spec_report_lines(
    sections: Seq<SectionModel>,
    chip: ChipModel,
    flash_size: Option<FlashSize>,
    width: int,
) -> Seq<Seq<char>> {
    let printed = spec_printed(sections);
    let name_w = spec_max_name_len(printed);
    spec_lines_from(
        printed,
        chip.regions,
        flash_size,
        name_w,
        width - name_w - 26,
        no_region_yet(),
    )
}

/// The character sequences of a list of lines.
pub open spec fn lines_view(ls: Seq<String>) -> Seq<Seq<char>> {
    ls.map_values(|l: String| l@)
}

/// Formats the report for a resolved chip, as `spec_report_lines` states:
/// one line per retained section in ascending address order, a blank line
/// opening each new region group, and placement columns only for sections a
/// region contains.
pub fn format_report(
    sections: Vec<Section>,
    chip: &Memory,
    flash_size: Option<FlashSize>,
    width: usize,
) -> (r: Vec<String>)
    requires
        chip_wf(chip@),
        report_width_ok(sections_view(sections@), chip@, flash_size, width as int),
    ensures
        lines_view(r@) == spec_report_lines(
            sections_view(sections@),
            chip@,
            flash_size,
            width as int,
        ),
{
    let ghost input = sections_view(sections@);
    let filtered = filter_sections(sections);
    let sorted = sort_sections(filtered);
    let ghost printed = spec_printed(input);
    proof {
        lemma_printed_nonzero(input);
    }
    let name_w = max_name_len(&sorted);
    let mut lines: Vec<String> = Vec::new();
    let mut last: usize = usize::MAX;
    let mut i: usize = 0;
    while i < sorted.len()
        invariant
            i <= sorted@.len(),
            sections_view(sorted@) == printed,
            printed == spec_printed(input),
            chip_wf(chip@),
            report_width_ok(input, chip@, flash_size, width as int),
            name_w as int == spec_max_name_len(printed),
            forall|k: int| 0 <= k < printed.len() ==> keep_section(#[trigger] printed[k]),
            last as int == spec_last_after(
                printed.subrange(0, i as int),
                chip@.regions,
                flash_size,
                no_region_yet(),
            ),
            lines_view(lines@) == spec_lines_from(
                printed.subrange(0, i as int),
                chip@.regions,
                flash_size,
                name_w as int,
                width - name_w - 26,
                no_region_yet(),
            ),
        decreases sorted@.len() - i,
    {
        let sec = &sorted[i];
        proof {
            assert(printed[i as int] == sorted@[i as int]@);
            assert(regions_view(chip.regions@) =~= chip@.regions);
            assert forall|k: int| 0 <= k < chip.regions@.len() implies region_wf(
                (#[trigger] chip.regions@[k])@,
            ) by {
                assert(chip@.regions[k] == chip.regions@[k]@);
            }
        }
        let reg_idx = resolve(&chip.regions, flash_size, sec.address, sec.size);
        let ghost prefix = printed.subrange(0, i as int);
        let ghost xm = printed[i as int];
        match reg_idx {
            Some(ri) => {
                let region = &chip.regions[ri];
                proof {
                    assert(chip@.regions[ri as int] == chip.regions@[ri as int]@);
                    lemma_resolve_first_match(
                        chip@.regions,
                        flash_size,
                        xm.address,
                        xm.size,
                    );
                    assert(region_contains(region@, flash_size, xm.address, xm.size));
                    assert(spec_printed(input)[i as int] == xm);
                    assert(width as int >= spec_max_name_len(printed) + 27);
                }
                let mut line = base_columns(sec, name_w);
                push_char(&mut line, ' ');
                line.append(region.name.as_str());
                let rl = region.name.as_str().unicode_len();
                if rl < 8 {
                    push_spaces(&mut line, 8 - rl);
                }
                push_char(&mut line, ' ');
                let reg_end = region.end(flash_size);
                let bw = width - name_w - 26;
                let bar = render_bar(region.start, reg_end, sec.address, sec.size, bw);
                line.append(bar.as_str());
                proof {
                    assert(line@ =~= spec_line(
                        xm,
                        Some(chip@.regions[ri as int]),
                        flash_size,
                        name_w as int,
                        bw as int,
                    ));
                }
                if region.id != last {
                    lines.push(String::new());
                    last = region.id;
                }
                lines.push(line);
            },
            None => {
                let line = base_columns(sec, name_w);
                lines.push(line);
            },
        }
        i = i + 1;
        proof {
            assert(prefix.push(xm) =~= printed.subrange(0, i as int));
            lemma_lines_from_snoc(
                prefix,
                xm,
                chip@.regions,
                flash_size,
                name_w as int,
                width - name_w - 26,
                no_region_yet(),
            );
            lemma_last_after_snoc(prefix, xm, chip@.regions, flash_size, no_region_yet());
            assert(lines_view(lines@) =~= spec_lines_from(
                printed.subrange(0, i as int),
                chip@.regions,
                flash_size,
                name_w as int,
                width - name_w - 26,
                no_region_yet(),
            ));
        }
    }
    proof {
        assert(printed.subrange(0, printed.len() as int) =~= printed);
    }
    lines
}

/// The catalog the run works on: the expert one with finer sub-regions, or
/// the basic one.
pub open spec fn spec_selected_catalog(expert: bool) -> Seq<ChipModel> {
    if expert {
        spec_catalog_expert()
    } else {
        spec_catalog()
    }
}

/// Runs the tool on plain inputs: selects the catalog, looks the chip up by
/// its normalized identifier, and formats the report.  An unknown chip
/// yields the fixed diagnostic and no report line.
pub fn run_report(
    sections: Vec<Section>,
    chip_name: &str,
    flash_size: Option<FlashSize>,
    width: usize,
    expert: bool,
) -> (r: Result<Vec<String>, String>)
    requires
        match spec_find_chip(spec_selected_catalog(expert), chip_name@) {
            Some(ci) => report_width_ok(
                sections_view(sections@),
                spec_selected_catalog(expert)[ci],
                flash_size,
                width as int,
            ),
            None => true,
        },
    ensures
        match r {
            Ok(lines) => match spec_find_chip(spec_selected_catalog(expert), chip_name@) {
                Some(ci) => lines_view(lines@) == spec_report_lines(
                    sections_view(sections@),
                    spec_selected_catalog(expert)[ci],
                    flash_size,
                    width as int,
                ),
                None => false,
            },
            Err(e) => {
                &&& spec_find_chip(spec_selected_catalog(expert), chip_name@) is None
                &&& e@ == "Unknown chip"@
            },
        },
{
    let catalog = if expert {
        memory_catalog_expert()
    } else {
        memory_catalog()
    };
    match find_chip(&catalog, chip_name) {
        Some(ci) => {
            proof {
                lemma_catalog_wf();
                assert(chips_view(catalog@)[ci as int] == catalog@[ci as int]@);
                assert(chip_wf(catalog@[ci as int]@));
            }
            let chip = &catalog[ci];
            let lines = format_report(sections, chip, flash_size, width);
            Ok(lines)
        },
        None => Err("Unknown chip".to_owned()),
    }
}

/// The report lines split at any point: first the lines of a prefix, then
/// the lines of the rest, started from the tracked identifier the prefix
/// leaves behind.
pub proof fn lemma_lines_split(
    ss: Seq<SectionModel>,
    regions: Seq<RegionModel>,
    flash_size: Option<FlashSize>,
    name_w: int,
    bar_w: int,
    last: int,
    k: int,
)
    requires
        0 <= k <= ss.len(),
    ensures
        spec_lines_from(ss, regions, flash_size, name_w, bar_w, last) == spec_lines_from(
            ss.subrange(0, k),
            regions,
            flash_size,
            name_w,
            bar_w,
            last,
        ) + spec_lines_from(
            ss.subrange(k, ss.len() as int),
            regions,
            flash_size,
            name_w,
            bar_w,
            spec_last_after(ss.subrange(0, k), regions, flash_size, last),
        ),
    decreases k,
{
    if k == 0 {
        assert(ss.subrange(0, 0) =~= Seq::<SectionModel>::empty());
        assert(ss.subrange(0, ss.len() as int) =~= ss);
        assert(spec_lines_from(ss, regions, flash_size, name_w, bar_w, last)
            =~= spec_lines_from(ss.subrange(0, 0), regions, flash_size, name_w, bar_w, last)
            + spec_lines_from(
            ss.subrange(0, ss.len() as int),
            regions,
            flash_size,
            name_w,
            bar_w,
            spec_last_after(ss.subrange(0, 0), regions, flash_size, last),
        ));
    } else {
        lemma_lines_split(ss, regions, flash_size, name_w, bar_w, last, k - 1);
        let pre = ss.subrange(0, k - 1);
        let prek = ss.subrange(0, k);
        let sufpre = ss.subrange(k - 1, ss.len() as int);
        let sufk = ss.subrange(k, ss.len() as int);
        let lastpre = spec_last_after(pre, regions, flash_size, last);
        assert(pre.push(ss[k - 1]) =~= prek);
        lemma_lines_from_snoc(pre, ss[k - 1], regions, flash_size, name_w, bar_w, last);
        lemma_last_after_snoc(pre, ss[k - 1], regions, flash_size, last);
        assert(sufpre[0] == ss[k - 1]);
        assert(sufpre.drop_first() =~= sufk);
        assert(spec_lines_from(ss, regions, flash_size, name_w, bar_w, last)
            =~= spec_lines_from(prek, regions, flash_size, name_w, bar_w, last)
            + spec_lines_from(
            sufk,
            regions,
            flash_size,
            name_w,
            bar_w,
            spec_last_after(prek, regions, flash_size, last),
        ));
    }
}

/// No blank separator ever stands before a section that resolves to no
/// region: its entry is its own line alone, and it leaves the tracked
/// identifier unchanged.
pub proof fn lemma_no_separator_without_region(
    s: SectionModel,
    regions: Seq<RegionModel>,
    flash_size: Option<FlashSize>,
    name_w: int,
    bar_w: int,
    last: int,
)
    requires
        spec_resolve(regions, flash_size, s.address, s.size) is None,
    ensures
        spec_entry(s, regions, flash_size, name_w, bar_w, last) == seq![
            spec_line(s, None, flash_size, name_w, bar_w),
        ],
        spec_next_last(s, regions, flash_size, last) == last,
{
}

/// Between two consecutively printed sections that both resolve, a blank
/// separator stands exactly when their regions' identifiers differ: the
/// tracked identifier before the later one is the earlier one's identifier,
/// and its entry opens with a blank line iff the identifiers differ.
pub proof fn lemma_separator_between_groups(
    ss: Seq<SectionModel>,
    regions: Seq<RegionModel>,
    flash_size: Option<FlashSize>,
    name_w: int,
    bar_w: int,
    k: int,
)
    requires
        0 <= k,
        k + 1 < ss.len(),
        spec_resolve(regions, flash_size, ss[k].address, ss[k].size) is Some,
        spec_resolve(regions, flash_size, ss[k + 1].address, ss[k + 1].size) is Some,
    ensures
        ({
            let group_id = spec_last_after(
                ss.subrange(0, k + 1),
                regions,
                flash_size,
                no_region_yet(),
            );
            match (
                spec_resolve(regions, flash_size, ss[k].address, ss[k].size),
                spec_resolve(regions, flash_size, ss[k + 1].address, ss[k + 1].size),
            ) {
                (Some(a), Some(b)) => {
                    &&& group_id == regions[a].id
                    &&& spec_entry(ss[k + 1], regions, flash_size, name_w, bar_w, group_id)
                        == if regions[b].id != regions[a].id {
                        seq![
                            Seq::<char>::empty(),
                            spec_line(
                                ss[k + 1],
                                Some(regions[b]),
                                flash_size,
                                name_w,
                                bar_w,
                            ),
                        ]
                    } else {
                        seq![spec_line(ss[k + 1], Some(regions[b]), flash_size, name_w, bar_w)]
                    }
                },
                _ => false,
            }
        }),
{
    let prefix = ss.subrange(0, k);
    lemma_last_after_snoc(prefix, ss[k], regions, flash_size, no_region_yet());
    assert(prefix.push(ss[k]) =~= ss.subrange(0, k + 1));
}

/// The report is a function of its inputs alone: two runs on the same
/// sections, chip, flash capacity and width yield the same lines, byte for
/// byte.
pub proof fn lemma_report_deterministic(
    a: Seq<Seq<char>>,
    b: Seq<Seq<char>>,
    sections: Seq<SectionModel>,
    chip: ChipModel,
    flash_size: Option<FlashSize>,
    width: int,
)
    requires
        a == spec_report_lines(sections, chip, flash_size, width),
        b == spec_report_lines(sections, chip, flash_size, width),
    ensures
        a == b,
{
}

} // verus!
