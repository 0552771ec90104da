//! The proportional bar renderer: a fixed-width text bar depicting a
//! section's offset and extent inside its containing region, with a thin
//! marker for sections too small to cover one cell.

use crate::textfmt::{
    lemma_repeat_char_len, push_char, push_spaces, repeat_char, spec_spaces,
};
use vstd::arithmetic::div_mod::{
    lemma_div_is_ordered, lemma_div_multiples_vanish, lemma_div_pos_is_pos,
    lemma_fundamental_div_mod, lemma_fundamental_div_mod_converse, lemma_mod_bound,
};
use vstd::arithmetic::mul::{
    lemma_mul_inequality, lemma_mul_inequality_converse, lemma_mul_is_distributive_add,
    lemma_mul_is_distributive_sub, lemma_mul_is_distributive_sub_other_way,
    lemma_mul_nonnegative,
};
use vstd::prelude::*;

verus! {

/// The glyph filling a cell the section covers.
pub const FULL_CELL: char = '\u{2588}';

/// The thin marker shown when the section would otherwise be invisible.
pub const THIN_CELL: char = '\u{258F}';

/// How many cells of a `total_width`-cell bar lie left of the section:
/// `total_width * (section_start - region_start) / region_span`, truncated.
pub open spec fn bar_offset(
    region_start: int,
    region_end: int,
    section_start: int,
    total_width: int,
) -> int {
    total_width * (section_start - region_start) / (region_end - region_start)
}

/// How many cells the section covers:
/// `total_width * section_size / region_span`, truncated.
pub open spec fn bar_fill(
    region_start: int,
    region_end: int,
    section_size: int,
    total_width: int,
) -> int {
    total_width * section_size / (region_end - region_start)
}

/// The rendered bar: an opening bracket, `bar_offset` blanks, the fill cells
/// (one thin marker when the fill truncates to zero), trailing blanks up to
/// `total_width` (clamped at zero, never negative), and a closing bracket.
pub open spec fn spec_bar(
    region_start: int,
    region_end: int,
    section_start: int,
    section_size: int,
    total_width: int,
) -> Seq<char> {
    let off = bar_offset(region_start, region_end, section_start, total_width);
    let fill = bar_fill(region_start, region_end, section_size, total_width);
    let small = fill == 0;
    let f = if small {
        1int
    } else {
        fill
    };
    let glyph = if small {
        THIN_CELL
    } else {
        FULL_CELL
    };
    let pad = if off + f <= total_width {
        total_width - off - f
    } else {
        0int
    };
    seq!['['] + spec_spaces(off) + repeat_char(glyph, f) + spec_spaces(pad) + seq![']']
}

/// Scaling a fraction of the span to `w` cells stays within `0..=w`.
proof fn lemma_scale_le(a: int, d: int, w: int)
    requires
        0 <= a <= d,
        0 < d,
        0 <= w,
    ensures
        0 <= w * a / d <= w,
{
    lemma_mul_nonnegative(w, a);
    lemma_div_pos_is_pos(w * a, d);
    lemma_mul_inequality(a, d, w);
    lemma_div_is_ordered(w * a, w * d, d);
    lemma_div_multiples_vanish(w, d);
}

/// Two scaled parts of one span never overshoot the bar: the truncated offset
/// and fill sum to at most `w` cells.
proof fn lemma_scale_sum_le(a: int, b: int, d: int, w: int)
    requires
        0 <= a,
        0 <= b,
        a + b <= d,
        0 < d,
        0 <= w,
    ensures
        w * a / d + w * b / d <= w,
{
    let q1 = w * a / d;
    let q2 = w * b / d;
    lemma_mul_nonnegative(w, a);
    lemma_mul_nonnegative(w, b);
    lemma_fundamental_div_mod(w * a, d);
    lemma_mod_bound(w * a, d);
    lemma_fundamental_div_mod(w * b, d);
    lemma_mod_bound(w * b, d);
    lemma_mul_is_distributive_add(w, a, b);
    lemma_mul_inequality(a + b, d, w);
    lemma_mul_is_distributive_add(d, q1, q2);
    lemma_mul_inequality_converse(q1 + q2, w, d);
}

/// A strictly interior start scales to strictly less than the full width.
proof fn lemma_scale_lt(a: int, d: int, w: int)
    requires
        0 <= a < d,
        1 <= w,
    ensures
        w * a / d <= w - 1,
{
    lemma_mul_inequality(a, d - 1, w);
    lemma_mul_is_distributive_sub(w, d, 1);
    lemma_div_is_ordered(w * a, w * d - 1, d);
    lemma_mul_is_distributive_sub_other_way(d, w, 1);
    lemma_fundamental_div_mod_converse(w * d - 1, d, w - 1, d - 1);
}

/// The rendered bar always takes `total_width + 2` cells, brackets included,
/// for every section of at least one byte that its region contains: the
/// clamped trailing pad is never needed and never negative.
pub proof fn lemma_bar_length(
    region_start: int,
    region_end: int,
    section_start: int,
    section_size: int,
    total_width: int,
)
    requires
        region_start < region_end,
        region_start <= section_start,
        section_start + section_size <= region_end,
        1 <= section_size,
        1 <= total_width,
    ensures
        spec_bar(region_start, region_end, section_start, section_size, total_width).len()
            == total_width + 2,
{
    let d = region_end - region_start;
    let a = section_start - region_start;
    let off = bar_offset(region_start, region_end, section_start, total_width);
    let fill = bar_fill(region_start, region_end, section_size, total_width);
    lemma_scale_le(a, d, total_width);
    lemma_scale_le(section_size, d, total_width);
    lemma_div_pos_is_pos(total_width * section_size, d);
    lemma_mul_nonnegative(total_width, section_size);
    if fill == 0 {
        lemma_scale_lt(a, d, total_width);
    } else {
        lemma_scale_sum_le(a, section_size, d, total_width);
    }
    let f = if fill == 0 {
        1int
    } else {
        fill
    };
    let glyph = if fill == 0 {
        THIN_CELL
    } else {
        FULL_CELL
    };
    lemma_repeat_char_len(' ', off);
    lemma_repeat_char_len(glyph, f);
    lemma_repeat_char_len(' ', total_width - off - f);
}

/// A section that exactly fills its region renders with no leading blank and
/// a fill covering the whole width.
pub proof fn lemma_bar_full_region(region_start: int, region_end: int, total_width: int)
    requires
        region_start < region_end,
        1 <= total_width,
    ensures
        bar_offset(region_start, region_end, region_start, total_width) == 0,
        bar_fill(region_start, region_end, region_end - region_start, total_width)
            == total_width,
{
    let d = region_end - region_start;
    vstd::arithmetic::mul::lemma_mul_is_commutative(total_width, d);
    lemma_div_multiples_vanish(total_width, d);
    lemma_div_pos_is_pos(0, d);
}

/// Renders the proportional bar for a contained section, as `spec_bar`
/// states.
pub fn render_bar(
    region_start: u64,
    region_end: u64,
    section_start: u64,
    section_size: u64,
    total_width: usize,
) -> (r: String)
    requires
        region_start < region_end,
        region_start <= section_start,
        section_start + section_size <= region_end,
        1 <= total_width,
    ensures
        r@ == spec_bar(
            region_start as int,
            region_end as int,
            section_start as int,
            section_size as int,
            total_width as int,
        ),
{
    let span = region_end - region_start;
    let delta = section_start - region_start;
    proof {
        lemma_scale_le(delta as int, span as int, total_width as int);
        lemma_scale_le(section_size as int, span as int, total_width as int);
        assert((total_width as u128) * (delta as u128) <= (u64::MAX as u128) * (u64::MAX
            as u128)) by (nonlinear_arith)
            requires
                total_width as u128 <= u64::MAX as u128,
                delta as u128 <= u64::MAX as u128,
        ;
        assert((total_width as u128) * (section_size as u128) <= (u64::MAX as u128) * (u64::MAX
            as u128)) by (nonlinear_arith)
            requires
                total_width as u128 <= u64::MAX as u128,
                section_size as u128 <= u64::MAX as u128,
        ;
    }
    let off128: u128 = (total_width as u128) * (delta as u128) / (span as u128);
    let fill128: u128 = (total_width as u128) * (section_size as u128) / (span as u128);
    let off: usize = off128 as usize;
    let fill: usize = fill128 as usize;
    proof {
        assert(off as int == bar_offset(
            region_start as int,
            region_end as int,
            section_start as int,
            total_width as int,
        ));
        assert(fill as int == bar_fill(
            region_start as int,
            region_end as int,
            section_size as int,
            total_width as int,
        ));
    }
    let small = fill == 0;
    let f: usize = if small {
        1
    } else {
        fill
    };
    let glyph: char = if small {
        THIN_CELL
    } else {
        FULL_CELL
    };
    let pad: usize = if f <= total_width - off {
        total_width - off - f
    } else {
        0
    };
    let mut s = String::new();
    push_char(&mut s, '[');
    push_spaces(&mut s, off);
    let head = Ghost(s@);
    let mut k: usize = 0;
    while k < f
        invariant
            k <= f,
            s@ == head@ + repeat_char(glyph, k as int),
        decreases f - k,
    {
        push_char(&mut s, glyph);
        k = k + 1;
        assert(head@ + repeat_char(glyph, k as int) =~= (head@ + repeat_char(
            glyph,
            k - 1,
        )).push(glyph));
    }
    push_spaces(&mut s, pad);
    push_char(&mut s, ']');
    proof {
        assert(s@ =~= spec_bar(
            region_start as int,
            region_end as int,
            section_start as int,
            section_size as int,
            total_width as int,
        ));
    }
    s
}

} // verus!
