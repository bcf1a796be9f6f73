use vstd::prelude::*;
use crate::color::Color;

verus! {

/// Sum of channel `ch` over the pixels `start..end` of the row whose first byte is at `base`
/// (four bytes per pixel).
pub open spec fn row_sum(data: Seq<u8>, base: int, start: int, end: int, ch: int) -> int
    decreases end - start,
{
    if end <= start {
        0
    } else {
        row_sum(data, base, start, end - 1, ch) + data[base + 4 * (end - 1) + ch] as int
    }
}

/// Sum of channel `ch` over the pixel columns `start..end` of the first `rows` rows of
/// `row_bytes` bytes each, the first row starting at byte `first`.
pub open spec fn strip_sum(
    data: Seq<u8>,
    first: int,
    row_bytes: int,
    rows: int,
    start: int,
    end: int,
    ch: int,
) -> int
    decreases rows,
{
    if rows <= 0 {
        0
    } else {
        strip_sum(data, first, row_bytes, rows - 1, start, end, ch) + row_sum(
            data,
            first + (rows - 1) * row_bytes,
            start,
            end,
            ch,
        )
    }
}

proof fn lemma_row_sum_nonneg(data: Seq<u8>, base: int, start: int, end: int, ch: int)
    ensures
        0 <= row_sum(data, base, start, end, ch),
    decreases end - start,
{
    if end > start {
        lemma_row_sum_nonneg(data, base, start, end - 1, ch);
    }
}

proof fn lemma_row_sum_mono(data: Seq<u8>, base: int, start: int, e1: int, e2: int, ch: int)
    requires
        start <= e1 <= e2,
    ensures
        row_sum(data, base, start, e1, ch) <= row_sum(data, base, start, e2, ch),
    decreases e2 - e1,
{
    if e1 < e2 {
        lemma_row_sum_mono(data, base, start, e1, e2 - 1, ch);
    }
}

proof fn lemma_strip_sum_mono(
    data: Seq<u8>,
    first: int,
    row_bytes: int,
    r1: int,
    r2: int,
    start: int,
    end: int,
    ch: int,
)
    requires
        0 <= r1 <= r2,
    ensures
        0 <= strip_sum(data, first, row_bytes, r1, start, end, ch),
        strip_sum(data, first, row_bytes, r1, start, end, ch) <= strip_sum(
            data,
            first,
            row_bytes,
            r2,
            start,
            end,
            ch,
        ),
    decreases r2,
{
    if r2 > 0 {
        lemma_row_sum_nonneg(data, first + (r2 - 1) * row_bytes, start, end, ch);
        if r1 < r2 {
            lemma_strip_sum_mono(data, first, row_bytes, r1, r2 - 1, start, end, ch);
        } else {
            lemma_strip_sum_mono(data, first, row_bytes, r1 - 1, r2 - 1, start, end, ch);
        }
    }
}

/// Whether every channel total of the strip fits in an `i32`.
pub open spec fn strip_sums_fit(
    data: Seq<u8>,
    first: int,
    row_bytes: int,
    rows: int,
    start: int,
    end: int,
) -> bool {
    forall|ch: int|
        0 <= ch < 3 ==> #[trigger] strip_sum(data, first, row_bytes, rows, start, end, ch) <= i32::MAX
}

/// Channel sums (blue, green, red order as stored) of one vertical strip, or `None` when
/// one of them does not fit in an `i32`.
fn strip_sums(
    data: &[u8],
    first: usize,
    row_bytes: usize,
    rows: usize,
    start: usize,
    end: usize,
) -> (sums: Option<(i32, i32, i32)>)
    requires
        start <= end,
        4 * end <= row_bytes,
        first + rows * row_bytes <= data@.len(),
    ensures
        sums is Some <==> strip_sums_fit(data@, first as int, row_bytes as int, rows as int, start as int, end as int),
        sums matches Some(t) ==> {
            &&& t.0 == strip_sum(data@, first as int, row_bytes as int, rows as int, start as int, end as int, 0)
            &&& t.1 == strip_sum(data@, first as int, row_bytes as int, rows as int, start as int, end as int, 1)
            &&& t.2 == strip_sum(data@, first as int, row_bytes as int, rows as int, start as int, end as int, 2)
        },
{
    let ghost d = data@;
    let ghost (fi, rb, rs, st, en) = (first as int, row_bytes as int, rows as int, start as int, end as int);
    let len: usize = data.len();
    let mut s0: i32 = 0;
    let mut s1: i32 = 0;
    let mut s2: i32 = 0;
    let mut row: usize = 0;
    while row < rows
        invariant
            start <= end,
            4 * end <= row_bytes,
            first + rows * row_bytes <= d.len(),
            d == data@,
            len == d.len(),
            fi == first,
            rb == row_bytes,
            rs == rows,
            st == start,
            en == end,
            row <= rows,
            s0 == strip_sum(d, fi, rb, row as int, st, en, 0),
            s1 == strip_sum(d, fi, rb, row as int, st, en, 1),
            s2 == strip_sum(d, fi, rb, row as int, st, en, 2),
        decreases rows - row,
    {
        assert(row * row_bytes + row_bytes <= rows * row_bytes) by (nonlinear_arith)
            requires
                row < rows,
        ;
        let base: usize = first + row * row_bytes;
        let ghost b = base as int;
        proof {
            lemma_strip_sum_mono(d, fi, rb, row + 1, rs, st, en, 0);
            lemma_strip_sum_mono(d, fi, rb, row + 1, rs, st, en, 1);
            lemma_strip_sum_mono(d, fi, rb, row + 1, rs, st, en, 2);
        }
        let mut j: usize = start;
        while j < end
            invariant
                start <= j <= end,
                4 * end <= row_bytes,
                b == first + row * row_bytes,
                b == base as int,
                b + row_bytes <= d.len(),
                d == data@,
                len == d.len(),
                fi == first,
                rb == row_bytes,
                rs == rows,
                st == start,
                en == end,
                row < rows,
                forall|ch: int|
                    0 <= ch < 3 ==> strip_sum(d, fi, rb, row as int, st, en, ch) + row_sum(d, b, st, en, ch)
                        <= #[trigger] strip_sum(d, fi, rb, rs, st, en, ch),
                s0 == strip_sum(d, fi, rb, row as int, st, en, 0) + row_sum(d, b, st, j as int, 0),
                s1 == strip_sum(d, fi, rb, row as int, st, en, 1) + row_sum(d, b, st, j as int, 1),
                s2 == strip_sum(d, fi, rb, row as int, st, en, 2) + row_sum(d, b, st, j as int, 2),
            decreases end - j,
        {
            proof {
                lemma_row_sum_mono(d, b, st, j + 1, en, 0);
                lemma_row_sum_mono(d, b, st, j + 1, en, 1);
                lemma_row_sum_mono(d, b, st, j + 1, en, 2);
                lemma_strip_sum_mono(d, fi, rb, 0, row as int, st, en, 0);
                lemma_strip_sum_mono(d, fi, rb, 0, row as int, st, en, 1);
                lemma_strip_sum_mono(d, fi, rb, 0, row as int, st, en, 2);
                lemma_row_sum_nonneg(d, b, st, j as int, 0);
                lemma_row_sum_nonneg(d, b, st, j as int, 1);
                lemma_row_sum_nonneg(d, b, st, j as int, 2);
            }
            let p: usize = base + 4 * j;
            let v0 = data[p] as i32;
            let v1 = data[p + 1] as i32;
            let v2 = data[p + 2] as i32;
            if s0 > i32::MAX - v0 || s1 > i32::MAX - v1 || s2 > i32::MAX - v2 {
                assert(strip_sum(d, fi, rb, rs, st, en, 0) <= i32::MAX ==> s0 + v0 <= i32::MAX);
                assert(strip_sum(d, fi, rb, rs, st, en, 1) <= i32::MAX ==> s1 + v1 <= i32::MAX);
                assert(strip_sum(d, fi, rb, rs, st, en, 2) <= i32::MAX ==> s2 + v2 <= i32::MAX);
                return None;
            }
            s0 = s0 + v0;
            s1 = s1 + v1;
            s2 = s2 + v2;
            j = j + 1;
        }
        row = row + 1;
    }
    proof {
        lemma_strip_sum_mono(d, fi, rb, 0, rs, st, en, 0);
        lemma_strip_sum_mono(d, fi, rb, 0, rs, st, en, 1);
        lemma_strip_sum_mono(d, fi, rb, 0, rs, st, en, 2);
    }
    Some((s0, s1, s2))
}

/// Where the two sampled strips lie in a frame. These bounds are derived from the frame size by
/// scaling with fractional factors, which is done by the caller.
#[derive(Clone, Copy, Debug, PartialEq, Eq, Structural)]
pub struct StripLayout {
    /// Rows dropped at the top and at the bottom of the frame.
    pub crop_rows: usize,
    /// First pixel column of the left strip.
    pub left_start: usize,
    /// One past the last pixel column of the left strip.
    pub left_end: usize,
    /// First pixel column of the right strip.
    pub right_start: usize,
    /// One past the last pixel column of the right strip.
    pub right_end: usize,
}

/// Bytes dropped at each end of a frame of the given width.
pub open spec fn crop_bytes(width: int, layout: StripLayout) -> int {
    4 * width * layout.crop_rows
}

/// Number of whole rows that remain once the crop is removed.
pub open spec fn body_rows(len: int, width: int, layout: StripLayout) -> int {
    (len - 2 * crop_bytes(width, layout)) / (4 * width)
}

/// The divisor of both averages: the left strip's pixel count, kept to its low 32 bits as a
/// signed number.
pub open spec fn strip_pixel_count(len: int, width: int, layout: StripLayout) -> int {
    ((layout.left_end - layout.left_start) * body_rows(len, width, layout)) as i32 as int
}

/// Sum of channel `ch` over the strip `start..end` of the cropped frame.
pub open spec fn channel_total(
    data: Seq<u8>,
    width: int,
    layout: StripLayout,
    start: int,
    end: int,
    ch: int,
) -> int {
    strip_sum(
        data,
        crop_bytes(width, layout),
        4 * width,
        body_rows(data.len() as int, width, layout),
        start,
        end,
        ch,
    )
}

/// An 8-bit average widened to the 16-bit range (`v * 257` maps 255 to 65535).
pub open spec fn channel_level(total: int, count: int) -> int {
    ((total / count) as u16) * 257
}

/// A channel level is the 8-bit average scaled by 257: a multiple of 257 that fits 16 bits,
/// with 0 for a black strip and 65535 for a full one.
pub proof fn lemma_channel_level_widens(total: int, count: int)
    requires
        total >= 0,
        count != 0,
        (total / count) as u16 <= 255,
    ensures
        channel_level(total, count) % 257 == 0,
        0 <= channel_level(total, count) <= 65535,
        (total / count) as u16 == 255 ==> channel_level(total, count) == 65535,
        total == 0 ==> channel_level(total, count) == 0,
{
    let q = (total / count) as u16;
    assert(q * 257 <= 255 * 257) by (nonlinear_arith)
        requires
            q <= 255,
    ;
    assert((q * 257) % 257 == 0) by (nonlinear_arith);
    if total == 0 {
        assert(total / count == 0) by (nonlinear_arith)
            requires
                total == 0,
                count != 0,
        ;
    }
}

/// The colour of one strip: channels are stored blue, green, red.
pub open spec fn strip_color(data: Seq<u8>, width: int, layout: StripLayout, start: int, end: int) -> Color {
    let count = strip_pixel_count(data.len() as int, width, layout);
    Color {
        r: channel_level(channel_total(data, width, layout, start, end, 2), count) as u16,
        g: channel_level(channel_total(data, width, layout, start, end, 1), count) as u16,
        b: channel_level(channel_total(data, width, layout, start, end, 0), count) as u16,
    }
}

/// The conditions under which averaging a strip neither overflows nor divides by zero.
pub open spec fn strip_in_range(data: Seq<u8>, width: int, layout: StripLayout, start: int, end: int) -> bool {
    let count = strip_pixel_count(data.len() as int, width, layout);
    &&& start <= end <= width
    &&& forall|ch: int|
        0 <= ch < 3 ==> {
            &&& #[trigger] channel_total(data, width, layout, start, end, ch) <= i32::MAX
            &&& (channel_total(data, width, layout, start, end, ch) / count) as u16 <= 255
        }
}

/// Everything `get_average_colors_from_frame` needs to run without overflow, out-of-bounds
/// access or division by zero.
pub open spec fn frame_in_range(data: Seq<u8>, width: int, layout: StripLayout) -> bool {
    let len = data.len() as int;
    &&& 0 < width
    &&& 4 * width <= usize::MAX
    &&& crop_bytes(width, layout) <= usize::MAX
    &&& 2 * crop_bytes(width, layout) <= len
    &&& (layout.left_end - layout.left_start) * body_rows(len, width, layout) <= usize::MAX
    &&& strip_pixel_count(len, width, layout) != 0
    &&& strip_in_range(data, width, layout, layout.left_start as int, layout.left_end as int)
    &&& strip_in_range(data, width, layout, layout.right_start as int, layout.right_end as int)
}

/// Byte `ch` of pixel `x` in row `r` of the rows kept after cropping.
pub open spec fn pixel_byte(data: Seq<u8>, width: int, layout: StripLayout, r: int, x: int, ch: int) -> u8 {
    data[crop_bytes(width, layout) + r * (4 * width) + 4 * x + ch]
}

/// Whether two frames agree on the colour bytes (the first three of each pixel) of the
/// pixel columns `start..end` in every row kept after cropping.
pub open spec fn same_strip(d1: Seq<u8>, d2: Seq<u8>, width: int, layout: StripLayout, start: int, end: int) -> bool {
    forall|r: int, x: int, ch: int|
        #![trigger pixel_byte(d1, width, layout, r, x, ch)]
        0 <= r < body_rows(d1.len() as int, width, layout) && start <= x < end && 0 <= ch < 3 ==> pixel_byte(
            d1,
            width,
            layout,
            r,
            x,
            ch,
        ) == pixel_byte(d2, width, layout, r, x, ch)
}

proof fn lemma_row_sum_agrees(
    d1: Seq<u8>,
    d2: Seq<u8>,
    width: int,
    layout: StripLayout,
    r: int,
    start: int,
    end: int,
    e: int,
    ch: int,
)
    requires
        same_strip(d1, d2, width, layout, start, end),
        0 <= r < body_rows(d1.len() as int, width, layout),
        e <= end,
        0 <= ch < 3,
    ensures
        row_sum(d1, crop_bytes(width, layout) + r * (4 * width), start, e, ch) == row_sum(
            d2,
            crop_bytes(width, layout) + r * (4 * width),
            start,
            e,
            ch,
        ),
    decreases e - start,
{
    if e > start {
        lemma_row_sum_agrees(d1, d2, width, layout, r, start, end, e - 1, ch);
        assert(pixel_byte(d1, width, layout, r, e - 1, ch) == pixel_byte(d2, width, layout, r, e - 1, ch));
    }
}

proof fn lemma_strip_sum_agrees(
    d1: Seq<u8>,
    d2: Seq<u8>,
    width: int,
    layout: StripLayout,
    rows: int,
    start: int,
    end: int,
    ch: int,
)
    requires
        same_strip(d1, d2, width, layout, start, end),
        rows <= body_rows(d1.len() as int, width, layout),
        0 <= ch < 3,
    ensures
        strip_sum(d1, crop_bytes(width, layout), 4 * width, rows, start, end, ch) == strip_sum(
            d2,
            crop_bytes(width, layout),
            4 * width,
            rows,
            start,
            end,
            ch,
        ),
    decreases rows,
{
    if rows > 0 {
        lemma_strip_sum_agrees(d1, d2, width, layout, rows - 1, start, end, ch);
        lemma_row_sum_agrees(d1, d2, width, layout, rows - 1, start, end, end, ch);
    }
}

proof fn lemma_channel_totals_agree(d1: Seq<u8>, d2: Seq<u8>, width: int, layout: StripLayout, start: int, end: int)
    requires
        d1.len() == d2.len(),
        same_strip(d1, d2, width, layout, start, end),
    ensures
        forall|ch: int|
            0 <= ch < 3 ==> #[trigger] channel_total(d1, width, layout, start, end, ch) == channel_total(
                d2,
                width,
                layout,
                start,
                end,
                ch,
            ),
{
    assert forall|ch: int| 0 <= ch < 3 implies #[trigger] channel_total(d1, width, layout, start, end, ch)
        == channel_total(d2, width, layout, start, end, ch) by {
        lemma_strip_sum_agrees(d1, d2, width, layout, body_rows(d1.len() as int, width, layout), start, end, ch);
    }
}

proof fn lemma_strip_in_range_agrees(d1: Seq<u8>, d2: Seq<u8>, width: int, layout: StripLayout, start: int, end: int)
    requires
        d1.len() == d2.len(),
        same_strip(d1, d2, width, layout, start, end),
    ensures
        strip_in_range(d1, width, layout, start, end) == strip_in_range(d2, width, layout, start, end),
{
    lemma_channel_totals_agree(d1, d2, width, layout, start, end);
    let count = strip_pixel_count(d1.len() as int, width, layout);
    if strip_in_range(d1, width, layout, start, end) {
        assert forall|ch: int| 0 <= ch < 3 implies {
            &&& #[trigger] channel_total(d2, width, layout, start, end, ch) <= i32::MAX
            &&& (channel_total(d2, width, layout, start, end, ch) / count) as u16 <= 255
        } by {
            assert(channel_total(d1, width, layout, start, end, ch) == channel_total(d2, width, layout, start, end, ch));
        }
    }
    if strip_in_range(d2, width, layout, start, end) {
        assert forall|ch: int| 0 <= ch < 3 implies {
            &&& #[trigger] channel_total(d1, width, layout, start, end, ch) <= i32::MAX
            &&& (channel_total(d1, width, layout, start, end, ch) / count) as u16 <= 255
        } by {
            assert(channel_total(d1, width, layout, start, end, ch) == channel_total(d2, width, layout, start, end, ch));
        }
    }
}

/// Only the colour bytes of the two strips, in the rows kept after cropping, decide the
/// averages: two frames of the same length that agree there get the same colours, and
/// one can be averaged exactly when the other can. The cropped rows, the other columns
/// and the fourth byte of every pixel play no part.
pub proof fn lemma_colors_depend_only_on_strips(d1: Seq<u8>, d2: Seq<u8>, width: int, layout: StripLayout)
    requires
        d1.len() == d2.len(),
        same_strip(d1, d2, width, layout, layout.left_start as int, layout.left_end as int),
        same_strip(d1, d2, width, layout, layout.right_start as int, layout.right_end as int),
    ensures
        frame_in_range(d1, width, layout) == frame_in_range(d2, width, layout),
        strip_color(d1, width, layout, layout.left_start as int, layout.left_end as int) == strip_color(
            d2,
            width,
            layout,
            layout.left_start as int,
            layout.left_end as int,
        ),
        strip_color(d1, width, layout, layout.right_start as int, layout.right_end as int) == strip_color(
            d2,
            width,
            layout,
            layout.right_start as int,
            layout.right_end as int,
        ),
{
    lemma_channel_totals_agree(d1, d2, width, layout, layout.left_start as int, layout.left_end as int);
    lemma_channel_totals_agree(d1, d2, width, layout, layout.right_start as int, layout.right_end as int);
    lemma_strip_in_range_agrees(d1, d2, width, layout, layout.left_start as int, layout.left_end as int);
    lemma_strip_in_range_agrees(d1, d2, width, layout, layout.right_start as int, layout.right_end as int);
}

/// The averaged rows are all the whole rows that remain once the crop is removed from
/// both ends of the frame: no whole row is left out, and no partial row is counted.
pub proof fn lemma_body_rows_are_the_whole_rows(len: int, width: int, layout: StripLayout)
    requires
        0 < width,
        2 * crop_bytes(width, layout) <= len,
    ensures
        0 <= body_rows(len, width, layout),
        body_rows(len, width, layout) * (4 * width) <= len - 2 * crop_bytes(width, layout),
        len - 2 * crop_bytes(width, layout) < (body_rows(len, width, layout) + 1) * (4 * width),
{
    let b = len - 2 * crop_bytes(width, layout);
    let w4 = 4 * width;
    let q = body_rows(len, width, layout);
    assert(q == b / w4);
    assert(0 <= q && q * w4 <= b && b < (q + 1) * w4) by (nonlinear_arith)
        requires
            q == b / w4,
            b >= 0,
            w4 > 0,
    ;
}

/// Row `r` of the rows kept after cropping is row `crop_rows + r` of the frame: the
/// averaged pixels are read from their own place in the buffer, four bytes per pixel.
pub proof fn lemma_pixel_byte_position(data: Seq<u8>, width: int, layout: StripLayout, r: int, x: int, ch: int)
    ensures
        pixel_byte(data, width, layout, r, x, ch) == data[4 * width * (layout.crop_rows + r) + 4 * x + ch],
{
    assert(4 * width * layout.crop_rows + r * (4 * width) == 4 * width * (layout.crop_rows + r))
        by (nonlinear_arith);
}

/// Both strips are divided by the left strip's pixel count (its width times the number of
/// rows kept), whenever that count fits in an `i32`.
pub proof fn lemma_divisor_is_left_pixel_count(len: int, width: int, layout: StripLayout)
    requires
        0 <= (layout.left_end - layout.left_start) * body_rows(len, width, layout) <= i32::MAX,
    ensures
        strip_pixel_count(len, width, layout) == (layout.left_end - layout.left_start) * body_rows(
            len,
            width,
            layout,
        ),
{
}

/// Whether byte `ch` of every pixel in columns `start..end` of the rows kept after
/// cropping is `c`.
pub open spec fn uniform_strip(data: Seq<u8>, width: int, layout: StripLayout, start: int, end: int, ch: int, c: int) -> bool {
    forall|r: int, x: int|
        #![trigger pixel_byte(data, width, layout, r, x, ch)]
        0 <= r < body_rows(data.len() as int, width, layout) && start <= x < end ==> pixel_byte(
            data,
            width,
            layout,
            r,
            x,
            ch,
        ) == c
}

proof fn lemma_row_sum_uniform(
    data: Seq<u8>,
    width: int,
    layout: StripLayout,
    r: int,
    start: int,
    end: int,
    e: int,
    ch: int,
    c: int,
)
    requires
        uniform_strip(data, width, layout, start, end, ch, c),
        0 <= r < body_rows(data.len() as int, width, layout),
        start <= e <= end,
    ensures
        row_sum(data, crop_bytes(width, layout) + r * (4 * width), start, e, ch) == c * (e - start),
    decreases e - start,
{
    if e > start {
        lemma_row_sum_uniform(data, width, layout, r, start, end, e - 1, ch, c);
        assert(pixel_byte(data, width, layout, r, e - 1, ch) == c);
        assert(c * (e - 1 - start) + c == c * (e - start)) by (nonlinear_arith);
    } else {
        assert(c * (e - start) == 0) by (nonlinear_arith)
            requires
                e == start,
        ;
    }
}

proof fn lemma_strip_sum_uniform(
    data: Seq<u8>,
    width: int,
    layout: StripLayout,
    rows: int,
    start: int,
    end: int,
    ch: int,
    c: int,
)
    requires
        uniform_strip(data, width, layout, start, end, ch, c),
        0 <= rows <= body_rows(data.len() as int, width, layout),
        start <= end,
    ensures
        strip_sum(data, crop_bytes(width, layout), 4 * width, rows, start, end, ch) == c * (end - start) * rows,
    decreases rows,
{
    if rows > 0 {
        lemma_strip_sum_uniform(data, width, layout, rows - 1, start, end, ch, c);
        lemma_row_sum_uniform(data, width, layout, rows - 1, start, end, end, ch, c);
        assert(c * (end - start) * (rows - 1) + c * (end - start) == c * (end - start) * rows) by (nonlinear_arith);
    } else {
        assert(c * (end - start) * rows == 0) by (nonlinear_arith)
            requires
                rows == 0,
        ;
    }
}

/// A strip whose pixels all have the same colour sums to that colour times its pixel
/// count, every row kept after cropping counted once; and when its pixel count is the
/// divisor, its average is that colour, each 8-bit channel widened by 257.
pub proof fn lemma_uniform_strip_color(
    data: Seq<u8>,
    width: int,
    layout: StripLayout,
    start: int,
    end: int,
    color_b: u8,
    color_g: u8,
    color_r: u8,
)
    requires
        start <= end,
        uniform_strip(data, width, layout, start, end, 0, color_b as int),
        uniform_strip(data, width, layout, start, end, 1, color_g as int),
        uniform_strip(data, width, layout, start, end, 2, color_r as int),
    ensures
        body_rows(data.len() as int, width, layout) >= 0 ==> {
            let n = (end - start) * body_rows(data.len() as int, width, layout);
            &&& channel_total(data, width, layout, start, end, 0) == color_b * n
            &&& channel_total(data, width, layout, start, end, 1) == color_g * n
            &&& channel_total(data, width, layout, start, end, 2) == color_r * n
        },
        (end - start) * body_rows(data.len() as int, width, layout) == strip_pixel_count(
            data.len() as int,
            width,
            layout,
        ) && strip_pixel_count(data.len() as int, width, layout) > 0 ==> strip_color(
            data,
            width,
            layout,
            start,
            end,
        ) == (Color { r: (color_r * 257) as u16, g: (color_g * 257) as u16, b: (color_b * 257) as u16 }),
{
    let rows = body_rows(data.len() as int, width, layout);
    let n = (end - start) * rows;
    if rows >= 0 {
        lemma_strip_sum_uniform(data, width, layout, rows, start, end, 0, color_b as int);
        lemma_strip_sum_uniform(data, width, layout, rows, start, end, 1, color_g as int);
        lemma_strip_sum_uniform(data, width, layout, rows, start, end, 2, color_r as int);
        assert(color_b * (end - start) * rows == color_b * n) by (nonlinear_arith)
            requires
                n == (end - start) * rows,
        ;
        assert(color_g * (end - start) * rows == color_g * n) by (nonlinear_arith)
            requires
                n == (end - start) * rows,
        ;
        assert(color_r * (end - start) * rows == color_r * n) by (nonlinear_arith)
            requires
                n == (end - start) * rows,
        ;
    }
    if n == strip_pixel_count(data.len() as int, width, layout) && n > 0 {
        if rows < 0 {
            assert((end - start) * rows <= 0) by (nonlinear_arith)
                requires
                    end - start >= 0,
                    rows < 0,
            ;
        }
        assert((color_b * n) / n == color_b) by (nonlinear_arith)
            requires
                n > 0,
        ;
        assert((color_g * n) / n == color_g) by (nonlinear_arith)
            requires
                n > 0,
        ;
        assert((color_r * n) / n == color_r) by (nonlinear_arith)
            requires
                n > 0,
        ;
    }
}

/// Averages the colour of a strip near the left edge and a strip near the right edge of a
/// frame of 4-byte BGRx pixels, after dropping `crop_rows` rows at the top and bottom.
/// Both averages divide by the left strip's pixel count, and each 8-bit average is
/// widened to 16 bits by multiplying by 257.
pub fn get_average_colors_from_frame(data: &[u8], width: usize, layout: &StripLayout) -> (colors: [Color; 2])
    requires
        frame_in_range(data@, width as int, *layout),
    ensures
        colors[0] == strip_color(data@, width as int, *layout, layout.left_start as int, layout.left_end as int),
        colors[1] == strip_color(data@, width as int, *layout, layout.right_start as int, layout.right_end as int),
{
    match average_colors(data, width, layout) {
        Some(colors) => colors,
        None => {
            assert(false);
            [Color { r: 0, g: 0, b: 0 }, Color { r: 0, g: 0, b: 0 }]
        },
    }
}

/// Like `get_average_colors_from_frame`, for any input: `None` exactly when the frame does
/// not meet `frame_in_range` (where averaging would overflow, read past the data or divide
/// by zero).
pub fn average_colors(data: &[u8], width: usize, layout: &StripLayout) -> (colors: Option<[Color; 2]>)
    ensures
        colors is Some <==> frame_in_range(data@, width as int, *layout),
        colors matches Some(c) ==> {
            &&& c[0] == strip_color(data@, width as int, *layout, layout.left_start as int, layout.left_end as int)
            &&& c[1] == strip_color(data@, width as int, *layout, layout.right_start as int, layout.right_end as int)
        },
{
    let ghost d = data@;
    let ghost w = width as int;
    if width == 0 {
        return None;
    }
    let row_bytes: usize = match width.checked_mul(4) {
        Some(v) => v,
        None => return None,
    };
    let skip: usize = match row_bytes.checked_mul(layout.crop_rows) {
        Some(v) => v,
        None => return None,
    };
    assert(skip == crop_bytes(w, *layout));
    let len: usize = data.len();
    if skip > len || skip > len - skip {
        return None;
    }
    let body: usize = len - skip - skip;
    let num_rows: usize = body / row_bytes;
    assert(num_rows == body_rows(d.len() as int, w, *layout));
    assert(num_rows * row_bytes <= body) by (nonlinear_arith)
        requires
            num_rows == body / row_bytes,
            row_bytes > 0,
    ;
    if layout.left_start > layout.left_end || layout.left_end > width || layout.right_start > layout.right_end
        || layout.right_end > width {
        return None;
    }
    let pixels: usize = match (layout.left_end - layout.left_start).checked_mul(num_rows) {
        Some(v) => v,
        None => return None,
    };
    let count: i32 = pixels as i32;
    assert(count == strip_pixel_count(d.len() as int, w, *layout));
    if count == 0 {
        return None;
    }
    let ghost (ls, le, rs, re) = (layout.left_start as int, layout.left_end as int, layout.right_start as int, layout.right_end as int);
    let ghost (first, rb, rows) = (skip as int, row_bytes as int, num_rows as int);
    assert(forall|ch: int| #[trigger] channel_total(d, w, *layout, ls, le, ch) == strip_sum(d, first, rb, rows, ls, le, ch));
    assert(forall|ch: int| #[trigger] channel_total(d, w, *layout, rs, re, ch) == strip_sum(d, first, rb, rows, rs, re, ch));
    let (b1, g1, r1) = match strip_sums(data, skip, row_bytes, num_rows, layout.left_start, layout.left_end) {
        Some(t) => t,
        None => {
            proof {
                let ch = choose|ch: int| 0 <= ch < 3 && !(#[trigger] strip_sum(d, first, rb, rows, ls, le, ch) <= i32::MAX);
                assert(channel_total(d, w, *layout, ls, le, ch) > i32::MAX);
            }
            return None;
        },
    };
    let (b2, g2, r2) = match strip_sums(data, skip, row_bytes, num_rows, layout.right_start, layout.right_end) {
        Some(t) => t,
        None => {
            proof {
                let ch = choose|ch: int| 0 <= ch < 3 && !(#[trigger] strip_sum(d, first, rb, rows, rs, re, ch) <= i32::MAX);
                assert(channel_total(d, w, *layout, rs, re, ch) > i32::MAX);
            }
            return None;
        },
    };
    proof {
        lemma_strip_sum_mono(d, first, rb, 0, rows, ls, le, 0);
        lemma_strip_sum_mono(d, first, rb, 0, rows, ls, le, 1);
        lemma_strip_sum_mono(d, first, rb, 0, rows, ls, le, 2);
        lemma_strip_sum_mono(d, first, rb, 0, rows, rs, re, 0);
        lemma_strip_sum_mono(d, first, rb, 0, rows, rs, re, 1);
        lemma_strip_sum_mono(d, first, rb, 0, rows, rs, re, 2);
    }
    let lr = level(r1, count);
    let lg = level(g1, count);
    let lb = level(b1, count);
    let rr = level(r2, count);
    let rg = level(g2, count);
    let rbl = level(b2, count);
    match (lr, lg, lb, rr, rg, rbl) {
        (Some(lr), Some(lg), Some(lb), Some(rr), Some(rg), Some(rbl)) => {
            Some([Color { r: lr, g: lg, b: lb }, Color { r: rr, g: rg, b: rbl }])
        },
        _ => {
            assert(channel_total(d, w, *layout, ls, le, 0) == b1);
            assert(channel_total(d, w, *layout, ls, le, 1) == g1);
            assert(channel_total(d, w, *layout, ls, le, 2) == r1);
            assert(channel_total(d, w, *layout, rs, re, 0) == b2);
            assert(channel_total(d, w, *layout, rs, re, 1) == g2);
            assert(channel_total(d, w, *layout, rs, re, 2) == r2);
            None
        },
    }
}

proof fn lemma_div_by_negative(total: int, count: int)
    requires
        total >= 0,
        count < 0,
    ensures
        total / count == -(total / (-count)),
{
    let a = total / (-count);
    let r = total % (-count);
    assert(total == (-count) * a + r && 0 <= r < -count) by (nonlinear_arith)
        requires
            a == total / (-count),
            r == total % (-count),
            count < 0,
    ;
    assert(total == count * (-a) + r) by (nonlinear_arith)
        requires
            total == (-count) * a + r,
    ;
    assert(total / count == -a) by (nonlinear_arith)
        requires
            total == count * (-a) + r,
            0 <= r < -count,
            count < 0,
    ;
}

/// `(total / count) as u16 * 257` for a non-negative total and a non-zero count (the
/// quotient rounded toward zero, the cast keeping the low 16 bits), or `None` when the
/// product would not fit 16 bits.
fn level(total: i32, count: i32) -> (v: Option<u16>)
    requires
        total >= 0,
        count != 0,
    ensures
        v is Some <==> (total / count) as u16 <= 255,
        v matches Some(x) ==> x == channel_level(total as int, count as int),
{
    let q: i32 = if count > 0 {
        let u: u32 = (total as u32) / (count as u32);
        assert(u == total / count);
        u as i32
    } else {
        let c: u32 = (0 - (count as i64)) as u32;
        let u: u32 = (total as u32) / c;
        proof {
            lemma_div_by_negative(total as int, count as int);
        }
        assert(u as int <= total as int) by (nonlinear_arith)
            requires
                u as int == (total as int) / (c as int),
                c as int >= 1,
                total as int >= 0,
        ;
        -(u as i32)
    };
    assert(q == total / count);
    let q16: u16 = q as u16;
    if q16 > 255 {
        None
    } else {
        Some(q16 * 257)
    }
}

/// A captured screen frame whose pixels are 4 bytes each, in R, G, B, A order.
#[derive(Clone, Debug)]
pub struct Frame {
    /// Raw pixel data in RGBA format, 4 bytes per pixel.
    pub data: Vec<u8>,
    pub width: u32,
    pub height: u32,
}

/// `raw` with the first and third byte of every 4-byte pixel exchanged (a trailing
/// partial pixel of three bytes is exchanged too; a shorter one is left alone).
pub open spec fn swap_red_blue(raw: Seq<u8>) -> Seq<u8> {
    Seq::new(
        raw.len(),
        |i: int|
            if i % 4 == 0 && i + 2 < raw.len() {
                raw[i + 2]
            } else if i % 4 == 2 {
                raw[i - 2]
            } else {
                raw[i]
            },
    )
}

/// A buffer whose pixels can all be swapped: its trailing partial pixel, if any, has
/// at least three bytes.
pub open spec fn swappable_len(len: int) -> bool {
    len % 4 == 0 || len % 4 == 3
}

impl Frame {
    /// Builds a frame from a buffer delivered by the capture stream. An empty frame
    /// (zero width or height) is dropped. Buffers in a blue-first layout (`bgr`) are
    /// normalised to RGBA by exchanging the red and blue byte of each pixel.
    pub fn from_buffer(raw: &[u8], width: u32, height: u32, bgr: bool) -> (frame: Option<Frame>)
        requires
            width != 0 && height != 0 && bgr ==> swappable_len(raw@.len() as int),
        ensures
            frame is None <==> (width == 0 || height == 0),
            frame matches Some(f) ==> {
                &&& f.width == width
                &&& f.height == height
                &&& f.data@ == if bgr { swap_red_blue(raw@) } else { raw@ }
            },
    {
        if width == 0 || height == 0 {
            return None;
        }
        let len = raw.len();
        let mut data: Vec<u8> = Vec::with_capacity(len);
        let mut i: usize = 0;
        while i < len
            invariant
                len == raw@.len(),
                i <= len,
                data@.len() == i,
                bgr ==> swappable_len(len as int),
                forall|k: int|
                    0 <= k < i ==> #[trigger] data@[k] == if bgr { swap_red_blue(raw@)[k] } else { raw@[k] },
            decreases len - i,
        {
            let byte = if bgr && i % 4 == 0 && i + 2 < len {
                raw[i + 2]
            } else if bgr && i % 4 == 2 {
                raw[i - 2]
            } else {
                raw[i]
            };
            data.push(byte);
            i = i + 1;
        }
        assert(data@ =~= if bgr { swap_red_blue(raw@) } else { raw@ });
        Some(Frame { data, width, height })
    }
}

/// Exchanging red and blue keeps the length and, in every whole pixel, moves the third
/// byte to the first place and the first to the third, keeping the second and the fourth,
/// whatever they hold. A trailing partial pixel of three bytes is exchanged the same way.
pub proof fn lemma_swap_red_blue_pixels(raw: Seq<u8>, k: int)
    requires
        0 <= k,
        4 * k + 2 < raw.len(),
    ensures
        swap_red_blue(raw).len() == raw.len(),
        swap_red_blue(raw)[4 * k] == raw[4 * k + 2],
        swap_red_blue(raw)[4 * k + 1] == raw[4 * k + 1],
        swap_red_blue(raw)[4 * k + 2] == raw[4 * k],
        4 * k + 3 < raw.len() ==> swap_red_blue(raw)[4 * k + 3] == raw[4 * k + 3],
{
    assert((4 * k) % 4 == 0);
    assert((4 * k + 1) % 4 == 1);
    assert((4 * k + 2) % 4 == 2);
    assert((4 * k + 3) % 4 == 3);
}

/// Exchanging red and blue twice gives back the original bytes.
pub proof fn lemma_swap_red_blue_involution(raw: Seq<u8>)
    requires
        swappable_len(raw.len() as int),
    ensures
        swap_red_blue(swap_red_blue(raw)) == raw,
{
    assert(swap_red_blue(swap_red_blue(raw)) =~= raw);
}

} // verus!
