//! The rasterizer: one text row per scanline, each the slice of the
//! aspect-stretched circle on that scanline with every pixel filled by the
//! glyph of the wedge its angle falls in, plus an optional legend entry on
//! the scanlines anchoring each value.

use vstd::prelude::*;
use vstd::string::StringExecFns;
use crate::ChartError;
use crate::Data;
use crate::angles::query_exec;
use crate::angles::query_spec;
use crate::geometry::calculate_width;
use crate::geometry::lemma_width_at_most_center;
use crate::geometry::width_spec;
use crate::partition::lemma_partition_properties;
use crate::partition::lemma_total_take_monotone;
use crate::partition::lookup;
use crate::partition::lookup_in;
use crate::partition::partition_of;
use crate::partition::total_of;
use crate::text::char_string;
use crate::text::color_code;
use crate::text::paint_text;
use crate::text::percent_seq;
use crate::text::push_percent;
use crate::text::push_spaces;
use crate::text::spaces_seq;
use crate::text::styled_of;

verus! {

/// The values of a data sequence, in order.
pub open spec fn values_of(data: Seq<Data>) -> Seq<u32> {
    data.map(|i: int, d: Data| d.value)
}

/// The glyph of one slice as it appears in a row: the fill character, wrapped
/// in its colour's escape sequences when a colour is set.
pub open spec fn styled_fill(d: Data) -> Seq<char> {
    match d.color {
        Option::None => seq![d.fill],
        Option::Some(c) => styled_of(color_code(c), seq![d.fill]),
    }
}

/// The legend entry of one slice: its styled glyph, its label and its share
/// of the total as a percentage with two decimal places.
pub open spec fn label_seq(d: Data, total: int) -> Seq<char> {
    styled_fill(d) + seq![' '] + d.label@ + seq![' '] + percent_seq(d.value as int, total)
        + seq!['%']
}

/// The glyph drawn at column `x` of scanline `y`: the styled fill of the
/// slice whose wedge the pixel's query angle falls in.
pub open spec fn cell_at(data: Seq<Data>, part: Seq<int>, y: int, x: int) -> Seq<char> {
    styled_fill(data[lookup_in(part, query_spec(x, y))])
}

/// The first `k` pixels of scanline `y`, whose columns run from `-w` to `w`.
pub open spec fn pixels_upto(data: Seq<Data>, part: Seq<int>, y: int, w: int, k: int) -> Seq<
    char,
>
    decreases k,
{
    if k <= 0 {
        Seq::empty()
    } else {
        pixels_upto(data, part, y, w, k - 1) + cell_at(data, part, y, -w + k - 1)
    }
}

/// The slice whose legend entry anchors on scanline `y`, if any: slice `i`
/// anchors on scanline `2*i - (n - 1)`, so the `n` entries are spaced two
/// scanlines apart and centred vertically.
pub open spec fn legend_slot(n: int, y: int) -> Option<int> {
    let t = y + n - 1;
    if 0 <= t && t % 2 == 0 && t / 2 < n {
        Option::Some(t / 2)
    } else {
        Option::None
    }
}

/// The full text row for scanline `y`: left padding up to the common centre
/// column, the pixels of the circle slice, and, when the legend is enabled,
/// a fixed gap followed by the anchored legend entry if this scanline has
/// one.
pub open spec fn row_spec(radius: int, aspect: int, legend: bool, data: Seq<Data>, y: int) -> Seq<
    char,
> {
    let total = total_of(values_of(data));
    let part = partition_of(values_of(data));
    let w = width_spec(radius, aspect, y);
    let center = width_spec(radius, aspect, 0);
    let base = spaces_seq(center - w) + pixels_upto(data, part, y, w, 2 * w + 1);
    if legend {
        let padded = base + spaces_seq(center - w + 2);
        match legend_slot(data.len() as int, y) {
            Option::Some(i) => padded + label_seq(data[i], total),
            Option::None => padded,
        }
    } else {
        base
    }
}

/// For two slices of equal positive weight, every pixel in the right half of
/// the raster (including the centre column) is filled by the first slice and
/// every pixel strictly left of centre by the second: queries of at most a
/// half turn land in the first wedge, greater ones in the second.
pub proof fn lemma_equal_pair_pixels(v: u32, x: int, y: int)
    requires
        v > 0,
    ensures
        lookup_in(partition_of(seq![v, v]), query_spec(x, y)) == if x >= 0 {
            0int
        } else {
            1int
        },
{
    crate::angles::lemma_query_range(x, y);
    crate::partition::lemma_equal_pair_partition(v, query_spec(x, y));
}

/// Each single value is at most the total of all of them.
pub proof fn lemma_value_le_total(data: Seq<Data>, i: int)
    requires
        0 <= i < data.len(),
    ensures
        data[i].value as int <= total_of(values_of(data)),
{
    let values = values_of(data);
    assert(values.take(i + 1).drop_last() =~= values.take(i));
    assert(total_of(values.take(i + 1)) == total_of(values.take(i)) + values[i]);
    crate::partition::lemma_total_bounded(values.take(i));
    lemma_total_take_monotone(values, i + 1, values.len() as int);
    crate::partition::lemma_total_take_all(values);
}

/// Appends the styled fill glyph of one slice.
fn push_styled_fill(out: &mut String, item: &Data)
    ensures
        final (out)@ == old(out)@ + styled_fill(*item),
{
    match item.color {
        Option::None => {
            out.push(item.fill);
            proof {
                assert(old(out)@.push(item.fill) =~= old(out)@ + styled_fill(*item));
            }
        },
        Option::Some(c) => {
            let glyph = char_string(item.fill);
            let painted = paint_text(&c, glyph.as_str());
            out.append(painted.as_str());
        },
    }
}

/// Builds the text row for scanline `y`.
pub fn build_row(
    data: &Vec<Data>,
    part: &Vec<u32>,
    total: u128,
    radius: u16,
    aspect: u16,
    legend: bool,
    y: i64,
) -> (row: String)
    requires
        data@.len() > 0,
        part@.len() == data@.len(),
        forall|i: int|
            0 <= i < part@.len() ==> part@[i] as int == partition_of(values_of(data@))[i],
        total as int == total_of(values_of(data@)),
        total > 0,
        -(radius as int) <= y as int <= radius as int,
    ensures
        row@ == row_spec(radius as int, aspect as int, legend, data@, y as int),
{
    let ghost part_spec = partition_of(values_of(data@));
    proof {
        lemma_partition_properties(values_of(data@));
        lemma_width_at_most_center(radius as int, aspect as int, y as int);
    }
    let w = calculate_width(radius, aspect, y);
    let center = calculate_width(radius, aspect, 0);
    let mut out = String::new();
    push_spaces(&mut out, (center - w) as usize);
    let w64: i64 = w as i64;
    let mut x: i64 = -w64;
    proof {
        assert(out@ =~= Seq::<char>::empty() + spaces_seq(center as int - w as int));
        assert(out@ =~= spaces_seq(center as int - w as int) + pixels_upto(
            data@,
            part_spec,
            y as int,
            w as int,
            0,
        ));
    }
    while x <= w64
        invariant
            -w64 <= x <= w64 + 1,
            w64 == w as int,
            w as int == width_spec(radius as int, aspect as int, y as int),
            w <= 0x100_0001,
            -(radius as int) <= y as int <= radius as int,
            data@.len() > 0,
            part@.len() == data@.len(),
            forall|i: int| 0 <= i < part@.len() ==> part@[i] as int == part_spec[i],
            part_spec == partition_of(values_of(data@)),
            part_spec[part_spec.len() - 1] == 360000,
            out@ == spaces_seq(center as int - w as int) + pixels_upto(
                data@,
                part_spec,
                y as int,
                w as int,
                x + w as int,
            ),
        decreases w64 + 1 - x,
    {
        let q = query_exec(x, y);
        proof {
            assert(part@[part@.len() - 1] as int == 360000);
        }
        let idx = lookup(part, q);
        proof {
            crate::partition::lemma_lookup_characterizes(part_spec, q as int, idx as int);
        }
        push_styled_fill(&mut out, &data[idx]);
        proof {
            assert(out@ =~= spaces_seq(center as int - w as int) + pixels_upto(
                data@,
                part_spec,
                y as int,
                w as int,
                x + 1 + w as int,
            ));
        }
        x = x + 1;
    }
    if legend {
        push_spaces(&mut out, (center - w + 2) as usize);
        let n = data.len();
        let t: i128 = y as i128 + n as i128 - 1;
        if t >= 0 {
            let tu: u128 = t as u128;
            if tu % 2 == 0 && tu / 2 < n as u128 {
                let li: usize = (tu / 2) as usize;
                proof {
                    assert(legend_slot(data@.len() as int, y as int) == Option::Some(li as int));
                    lemma_value_le_total(data@, li as int);
                    crate::partition::lemma_total_bounded(values_of(data@));
                    assert((values_of(data@).len() as int) * 0xffff_ffff
                        < 0x1_0000_0000_0000_0000_0000_0000) by (nonlinear_arith)
                        requires
                            values_of(data@).len() <= 0xffff_ffff_ffff_ffff,
                    ;
                }
                let item = &data[li];
                push_styled_fill(&mut out, item);
                out.push(' ');
                out.append(item.label.as_str());
                out.push(' ');
                push_percent(&mut out, item.value, total);
                out.push('%');
                proof {
                    assert(out@ =~= row_spec(
                        radius as int,
                        aspect as int,
                        legend,
                        data@,
                        y as int,
                    ));
                }
            } else {
                proof {
                    assert(legend_slot(data@.len() as int, y as int) is None);
                }
            }
        } else {
            proof {
                assert(legend_slot(data@.len() as int, y as int) is None);
            }
        }
    }
    proof {
        assert(out@ =~= row_spec(radius as int, aspect as int, legend, data@, y as int));
    }
    out
}

/// Copies the values out of a data sequence.
fn collect_values(data: &Vec<Data>) -> (values: Vec<u32>)
    ensures
        values@ == values_of(data@),
{
    let n = data.len();
    let mut values: Vec<u32> = Vec::new();
    let mut i: usize = 0;
    while i < n
        invariant
            i <= n,
            n == data@.len(),
            values@.len() == i,
            forall|k: int| 0 <= k < i ==> values@[k] == data@[k].value,
        decreases n - i,
    {
        values.push(data[i].value);
        i = i + 1;
    }
    proof {
        assert(values@ =~= values_of(data@));
    }
    values
}

/// Renders the chart: one row per scanline from `-radius` to `radius`, top
/// to bottom. Succeeds exactly when the data is non-empty and its values do
/// not all vanish; an empty sequence or a zero total is rejected before any
/// row is produced.
pub fn render_rows(radius: u16, aspect: u16, legend: bool, data: &Vec<Data>) -> (r: Result<
    Vec<String>,
    ChartError,
>)
    ensures
        r is Ok <==> data@.len() > 0 && total_of(values_of(data@)) > 0,
        (r matches Err(ChartError::EmptyData)) <==> data@.len() == 0,
        (r matches Err(ChartError::ZeroTotal)) <==> (data@.len() > 0 && total_of(
            values_of(data@),
        ) == 0),
        r matches Ok(rows) ==> rows@.len() == 2 * (radius as int) + 1 && (forall|k: int|
            0 <= k < rows@.len() ==> rows@[k]@ == row_spec(
                radius as int,
                aspect as int,
                legend,
                data@,
                k - radius as int,
            )),
{
    if data.len() == 0 {
        return Err(ChartError::EmptyData);
    }
    let values = collect_values(data);
    let total = crate::partition::total_value(&values);
    if total == 0 {
        return Err(ChartError::ZeroTotal);
    }
    let part = crate::partition::partition(total, &values);
    let mut rows: Vec<String> = Vec::new();
    let mut y: i64 = -(radius as i64);
    while y <= radius as i64
        invariant
            -(radius as int) <= y as int <= radius as int + 1,
            rows@.len() == y as int + radius as int,
            data@.len() > 0,
            values@ == values_of(data@),
            total as int == total_of(values_of(data@)),
            total > 0,
            part@.len() == data@.len(),
            forall|i: int|
                0 <= i < part@.len() ==> part@[i] as int == partition_of(values_of(data@))[i],
            forall|k: int|
                0 <= k < rows@.len() ==> rows@[k]@ == row_spec(
                    radius as int,
                    aspect as int,
                    legend,
                    data@,
                    k - radius as int,
                ),
        decreases radius as int + 1 - y as int,
    {
        let row = build_row(data, &part, total, radius, aspect, legend, y);
        rows.push(row);
        y = y + 1;
    }
    Ok(rows)
}

} // verus!
