//! Contact sheets and annotated frames: pictures that say what they show.

use crate::analyze::{
    instants, instants_of, negative_interval, require_interval, sampled_frames, step_of, steps_fit,
};
use crate::error::{Error, ErrorView};
use crate::number::{fixed_text, push_fixed};
use crate::rational::{round_half_away, round_half_even, rounded, rounded_even};
use crate::text::{dec, push_dec};
use crate::time::{Fps, Span, Time};
use vstd::prelude::*;

verus! {

/// Smallest side of a cell.
pub const MIN_CELL: u32 = 16;

// ---------------------------------------------------------------------------
// The grid
// ---------------------------------------------------------------------------

/// The shape of a contact sheet.
#[derive(Clone, Debug)]
pub struct SheetPlan {
    pub columns: u32,
    pub rows: u64,
    pub cell: [u32; 2],
    /// Pixel size of the whole sheet.
    pub size: [u64; 2],
    /// What each cell shows, in reading order.
    pub instants: Vec<Time>,
}

/// One cell of a sheet.
#[derive(Clone, Debug)]
pub struct SheetCell {
    /// Number in reading order, from 1.
    pub index: u64,
    pub row: u64,
    pub column: u64,
    pub at: Time,
    pub timecode: String,
}

pub open spec fn cell_width(width: u32, columns: u32) -> int {
    let w = width as int / columns as int;
    if w < MIN_CELL {
        MIN_CELL as int
    } else {
        w
    }
}

/// The height that gives a cell the shape of the frame, within what 32 bits hold.
pub open spec fn cell_height(cell_width: int, frame: [u32; 2]) -> int {
    let w = if frame@[0] == 0 {
        1
    } else {
        frame@[0] as int
    };
    let h = round_half_away(cell_width * frame@[1], w);
    if h < MIN_CELL {
        MIN_CELL as int
    } else if h > u32::MAX {
        u32::MAX as int
    } else {
        h
    }
}

/// How many rows some cells take, and one where there are none.
pub open spec fn rows_of(cells: int, columns: int) -> int {
    if cells == 0 {
        1
    } else {
        (cells + columns - 1) / columns
    }
}

pub open spec fn no_columns() -> ErrorView {
    ErrorView::BadArgs("a contact sheet needs at least one column"@)
}

pub open spec fn nothing_to_sheet(name: Seq<char>) -> ErrorView {
    ErrorView::Op("sequence '"@ + name + "' is empty, so there is nothing to sheet"@)
}

pub open spec fn too_long_to_sample(name: Seq<char>) -> ErrorView {
    ErrorView::Op("sequence '"@ + name + "' is too long to sample at this interval"@)
}

/// Why there can be no sheet, if so.
pub open spec fn sheet_error(
    name: Seq<char>,
    fps: Fps,
    duration: Time,
    every: Time,
    columns: u32,
) -> Option<ErrorView> {
    if every.secs.num < 0 {
        Some(negative_interval("every"@, every))
    } else if columns == 0 {
        Some(no_columns())
    } else if duration.secs.num == 0 {
        Some(nothing_to_sheet(name))
    } else if !steps_fit(
        Span { start: Time::zero_spec(), end: duration },
        step_of(every, fps),
        fps,
    ) {
        Some(too_long_to_sample(name))
    } else {
        None
    }
}

/// Lays a sequence out as a grid.
pub fn plan_sheet(
    name: &str,
    frame: [u32; 2],
    fps: Fps,
    duration: Time,
    every: Time,
    columns: u32,
    width: u32,
) -> (r: Result<SheetPlan, Error>)
    requires
        fps.wf(),
        duration.wf(),
        every.wf(),
    ensures
        (match r {
            Err(error) => sheet_error(name@, fps, duration, every, columns) == Some(error@),
            Ok(plan) => {
                &&& sheet_error(name@, fps, duration, every, columns) is None
                &&& plan.instants@ == instants_of(
                    sampled_frames(
                        Span { start: Time::zero_spec(), end: duration },
                        every,
                        fps,
                    ),
                    fps,
                )
                &&& plan.columns == columns
                &&& plan.rows == rows_of(plan.instants@.len() as int, columns as int)
                &&& plan.cell@[0] == cell_width(width, columns)
                &&& plan.cell@[1] == cell_height(cell_width(width, columns), frame)
                &&& plan.size@[0] == plan.cell@[0] * columns
                &&& plan.size@[1] == crate::sheet::product_of(plan.cell@[1], plan.rows)
            },
        }),
{
    match require_interval(every, "every") {
        Err(error) => return Err(error),
        Ok(()) => {},
    }
    if columns == 0 {
        return Err(Error::bad_args("a contact sheet needs at least one column"));
    }
    if duration.is_zero() {
        let mut detail = "sequence '".to_owned();
        detail.append(name);
        detail.append("' is empty, so there is nothing to sheet");
        return Err(Error::Op(detail));
    }
    let cell_w: u32 = if width / columns < MIN_CELL {
        MIN_CELL
    } else {
        width / columns
    };
    let frame_w: u32 = if frame[0] == 0 {
        1
    } else {
        frame[0]
    };
    proof {
        assert(cell_w * frame@[1] <= u32::MAX * u32::MAX) by (nonlinear_arith)
            requires
                0 <= cell_w <= u32::MAX,
                0 <= frame@[1] <= u32::MAX,
        ;
        assert(0 <= cell_w * frame@[1]) by (nonlinear_arith)
            requires
                0 <= cell_w,
                0 <= frame@[1],
        ;
    }
    let tall: i128 = rounded((cell_w as i128) * (frame[1] as i128), frame_w as i128);
    let cell_h: u32 = if tall < MIN_CELL as i128 {
        MIN_CELL
    } else if tall > u32::MAX as i128 {
        u32::MAX
    } else {
        tall as u32
    };
    let taken = match instants(Span { start: Time::zero(), end: duration }, every, fps) {
        Some(taken) => taken,
        None => {
            let mut detail = "sequence '".to_owned();
            detail.append(name);
            detail.append("' is too long to sample at this interval");
            return Err(Error::Op(detail));
        },
    };
    let count: u64 = taken.len() as u64;
    let rows: u64 = if count == 0 {
        1
    } else {
        (count - 1) / (columns as u64) + 1
    };
    proof {
        if count > 0 {
            lemma_rows(count as int, columns as int);
        }
        assert(cell_w * columns <= u64::MAX) by (nonlinear_arith)
            requires
                0 <= cell_w <= u32::MAX,
                0 <= columns <= u32::MAX,
        ;
    }
    Ok(
        SheetPlan {
            columns,
            rows,
            cell: [cell_w, cell_h],
            size: [(cell_w as u64) * (columns as u64), product(cell_h, rows)],
            instants: taken,
        },
    )
}

/// A product, within what 64 bits hold.
pub open spec fn product_of(a: u32, b: u64) -> int {
    if a * b > u64::MAX {
        u64::MAX as int
    } else {
        a * b
    }
}

fn product(a: u32, b: u64) -> (r: u64)
    ensures
        r == product_of(a, b),
{
    proof {
        assert(0 <= a * b <= 0xffff_ffff * 0xffff_ffff_ffff_ffff) by (nonlinear_arith)
            requires
                0 <= a <= 0xffff_ffff,
                0 <= b <= 0xffff_ffff_ffff_ffff,
        ;
    }
    let p: u128 = (a as u128) * (b as u128);
    if p > u64::MAX as u128 {
        u64::MAX
    } else {
        p as u64
    }
}

proof fn lemma_rows(count: int, columns: int)
    requires
        count > 0,
        columns > 0,
    ensures
        (count - 1) / columns + 1 == (count + columns - 1) / columns,
{
    vstd::arithmetic::div_mod::lemma_div_plus_one(count - 1, columns);
    assert(columns + (count - 1) == count + columns - 1);
}

/// The cell at a position.
pub fn sheet_cell(plan: &SheetPlan, at: usize, fps: Fps) -> (r: SheetCell)
    requires
        at < plan.instants@.len(),
        plan.columns > 0,
        fps.wf(),
        plan.instants@[at as int].wf(),
        at < u64::MAX,
    ensures
        r.index == at + 1,
        r.row == at as int / plan.columns as int,
        r.column == at as int % plan.columns as int,
        r.at == plan.instants@[at as int],
        r.timecode@ == plan.instants@[at as int].timecode_text(fps),
{
    let n: u64 = at as u64;
    SheetCell {
        index: n + 1,
        row: n / (plan.columns as u64),
        column: n % (plan.columns as u64),
        at: plan.instants[at],
        timecode: plan.instants[at].timecode(fps),
    }
}

/// No two cells of a sheet stand in one place.
pub proof fn law_cells_stand_apart(columns: int, a: int, b: int)
    requires
        columns > 0,
        0 <= a,
        0 <= b,
        a / columns == b / columns,
        a % columns == b % columns,
    ensures
        a == b,
{
    vstd::arithmetic::div_mod::lemma_fundamental_div_mod(a, columns);
    vstd::arithmetic::div_mod::lemma_fundamental_div_mod(b, columns);
}

// ---------------------------------------------------------------------------
// Labels
// ---------------------------------------------------------------------------

pub open spec fn escape_char(c: char) -> Seq<char> {
    if c == '&' {
        "&amp;"@
    } else if c == '<' {
        "&lt;"@
    } else if c == '>' {
        "&gt;"@
    } else if c == '"' {
        "&quot;"@
    } else if c == '\'' {
        "&apos;"@
    } else {
        seq![c]
    }
}

/// Text as it stands in an XML document.
pub open spec fn xml_escaped(text: Seq<char>) -> Seq<char>
    decreases text.len(),
{
    if text.len() == 0 {
        seq![]
    } else {
        xml_escaped(text.drop_last()) + escape_char(text.last())
    }
}

pub fn push_escaped(out: &mut String, text: &str)
    ensures
        final(out)@ == old(out)@ + xml_escaped(text@),
{
    let ghost before = out@;
    let chars = crate::text::chars_of(text);
    let mut i: usize = 0;
    assert(chars@.take(0) =~= seq![]);
    assert(before + Seq::<char>::empty() =~= before);
    while i < chars.len()
        invariant
            i <= chars@.len(),
            out@ == before + xml_escaped(chars@.take(i as int)),
        decreases chars@.len() - i,
    {
        let c = chars[i];
        assert(chars@.take(i + 1).drop_last() =~= chars@.take(i as int));
        if c == '&' {
            out.append("&amp;");
        } else if c == '<' {
            out.append("&lt;");
        } else if c == '>' {
            out.append("&gt;");
        } else if c == '"' {
            out.append("&quot;");
        } else if c == '\'' {
            out.append("&apos;");
        } else {
            crate::text::push_char(out, c);
            assert(out@ =~= before + xml_escaped(chars@.take(i as int)) + seq![c]);
        }
        i = i + 1;
        assert(out@ =~= before + xml_escaped(chars@.take(i as int)));
    }
    assert(chars@.take(i as int) =~= chars@);
}

/// A fraction with two decimals.
pub open spec fn places2(n: int, d: int) -> Seq<char> {
    fixed_text(round_half_even(n * 100, d), 2)
}

fn push2(out: &mut String, n: i128, d: i128)
    requires
        d > 0,
        -0x1_0000_0000_0000_0000_0000_0000_0000 <= n <= 0x1_0000_0000_0000_0000_0000_0000_0000,
    ensures
        final(out)@ == old(out)@ + places2(n as int, d as int),
{
    push_fixed(out, rounded_even(n * 100, d), 2);
}

/// Type size of a label in 1100ths of a pixel: an eleventh of the height, and at least 9 pixels.
pub open spec fn label_size(height: int) -> int {
    if height * 100 < 9900 {
        9900
    } else {
        height * 100
    }
}

/// Height of a label's band in 110000ths of a pixel.
pub open spec fn label_band(height: int, two_lines: bool) -> int {
    label_size(height) * if two_lines {
        265
    } else {
        165int
    }
}

/// The picture of a label: a band with the timecode and, below it, a clip's id.
pub open spec fn label_text(
    width: int,
    height: int,
    timecode: Seq<char>,
    clip: Option<Seq<char>>,
) -> Seq<char> {
    let size = label_size(height);
    let band = label_band(height, clip is Some);
    let top = height * 110000 - band;
    let head = "<svg xmlns=\"http://www.w3.org/2000/svg\" width=\""@ + dec(width as nat)
        + "\" height=\""@ + dec(height as nat) + "\" viewBox=\"0 0 "@ + dec(width as nat) + " "@
        + dec(height as nat) + "\"><rect x=\"0\" y=\""@ + places2(top, 110000) + "\" width=\""@
        + dec(width as nat) + "\" height=\""@ + places2(band, 110000)
        + "\" fill=\"#000\" fill-opacity=\"0.62\"/><text x=\""@ + places2(size * 35, 110000)
        + "\" y=\""@ + places2(top + size * 100, 110000)
        + "\" font-family=\"sans-serif\" font-size=\""@ + places2(size, 1100)
        + "\" fill=\"#ffffff\">"@ + xml_escaped(timecode) + "</text>"@;
    match clip {
        Some(clip) => head + "<text x=\""@ + places2(size * 35, 110000) + "\" y=\""@ + places2(
            top + size * 205,
            110000,
        ) + "\" font-family=\"sans-serif\" font-size=\""@ + places2(size * 85, 110000)
            + "\" fill=\"#8be9fd\">"@ + xml_escaped(clip) + "</text>"@ + "</svg>"@,
        None => head + "</svg>"@,
    }
}

/// Draws a label.
pub fn label_svg(width: u32, height: u32, timecode: &str, clip: Option<&str>) -> (r: String)
    ensures
        r@ == label_text(
            width as int,
            height as int,
            timecode@,
            match clip {
                Some(clip) => Some(clip@),
                None => None,
            },
        ),
{
    let w: u128 = width as u128;
    let h: u128 = height as u128;
    let size: i128 = if (height as i128) * 100 < 9900 {
        9900
    } else {
        (height as i128) * 100
    };
    let band: i128 = if clip.is_some() {
        size * 265
    } else {
        size * 165
    };
    let top: i128 = (height as i128) * 110000 - band;
    let mut out = "<svg xmlns=\"http://www.w3.org/2000/svg\" width=\"".to_owned();
    push_dec(&mut out, w);
    out.append("\" height=\"");
    push_dec(&mut out, h);
    out.append("\" viewBox=\"0 0 ");
    push_dec(&mut out, w);
    out.append(" ");
    push_dec(&mut out, h);
    out.append("\"><rect x=\"0\" y=\"");
    push2(&mut out, top, 110000);
    out.append("\" width=\"");
    push_dec(&mut out, w);
    out.append("\" height=\"");
    push2(&mut out, band, 110000);
    out.append("\" fill=\"#000\" fill-opacity=\"0.62\"/><text x=\"");
    push2(&mut out, size * 35, 110000);
    out.append("\" y=\"");
    push2(&mut out, top + size * 100, 110000);
    out.append("\" font-family=\"sans-serif\" font-size=\"");
    push2(&mut out, size, 1100);
    out.append("\" fill=\"#ffffff\">");
    push_escaped(&mut out, timecode);
    out.append("</text>");
    if let Some(clip) = clip {
        out.append("<text x=\"");
        push2(&mut out, size * 35, 110000);
        out.append("\" y=\"");
        push2(&mut out, top + size * 205, 110000);
        out.append("\" font-family=\"sans-serif\" font-size=\"");
        push2(&mut out, size * 85, 110000);
        out.append("\" fill=\"#8be9fd\">");
        push_escaped(&mut out, clip);
        out.append("</text>");
    }
    out.append("</svg>");
    out
}

// ---------------------------------------------------------------------------
// Annotations
// ---------------------------------------------------------------------------

/// A layer of a frame: where it lies, in millionths of a pixel.
#[derive(Clone, Debug)]
pub struct Layer {
    pub clip: String,
    pub track: String,
    pub name: String,
    pub source: String,
    pub x: i64,
    pub y: i64,
    pub w: i64,
    pub h: i64,
    /// In millionths.
    pub opacity: i64,
}

/// The color of a box, in turn.
pub open spec fn box_color(index: int) -> Seq<char> {
    let i = index % 6;
    if i == 0 {
        "#ff2d55"@
    } else if i == 1 {
        "#00e5ff"@
    } else if i == 2 {
        "#ffd60a"@
    } else if i == 3 {
        "#34c759"@
    } else if i == 4 {
        "#bf5af2"@
    } else {
        "#ff9f0a"@
    }
}

pub fn annotation_color(index: usize) -> (r: &'static str)
    ensures
        r@ == box_color(index as int),
{
    let i: usize = index % 6;
    if i == 0 {
        "#ff2d55"
    } else if i == 1 {
        "#00e5ff"
    } else if i == 2 {
        "#ffd60a"
    } else if i == 3 {
        "#34c759"
    } else if i == 4 {
        "#bf5af2"
    } else {
        "#ff9f0a"
    }
}

/// Neighbouring boxes have different colors.
pub proof fn law_neighbours_differ_in_color(index: int)
    requires
        index >= 0,
    ensures
        box_color(index) != box_color(index + 1),
{
    reveal_strlit("#ff2d55");
    reveal_strlit("#00e5ff");
    reveal_strlit("#ffd60a");
    reveal_strlit("#34c759");
    reveal_strlit("#bf5af2");
    reveal_strlit("#ff9f0a");
    assert("#ff2d55"@[1] == 'f' && "#ff2d55"@[3] == '2');
    assert("#00e5ff"@[1] == '0');
    assert("#ffd60a"@[1] == 'f' && "#ffd60a"@[3] == 'd');
    assert("#34c759"@[1] == '3');
    assert("#bf5af2"@[1] == 'b');
    assert("#ff9f0a"@[1] == 'f' && "#ff9f0a"@[3] == '9');
}

pub open spec fn held(value: int, low: int, high: int) -> int {
    if value < low {
        low
    } else if value > high {
        high
    } else {
        value
    }
}

/// Height of a badge, in millionths: three and a half percent of the frame, at least 14 pixels.
pub open spec fn badge_size(height: int) -> int {
    if height * 35000 < 14_000_000 {
        14_000_000
    } else {
        height * 35000
    }
}

pub open spec fn stroke_size(height: int) -> int {
    if height * 4000 < 2_000_000 {
        2_000_000
    } else {
        height * 4000
    }
}

/// The corners of a layer's box, moved into the frame so that it can be seen.
pub open spec fn box_of(width: int, height: int, layer: Layer) -> (int, int, int, int) {
    let x0 = held(layer.x as int, 0, (width - 1) * 1_000_000);
    let y0 = held(layer.y as int, 0, (height - 1) * 1_000_000);
    let x1 = held(layer.x + layer.w, x0 + 1_000_000, width * 1_000_000);
    let y1 = held(layer.y + layer.h, y0 + 1_000_000, height * 1_000_000);
    (x0, y0, x1, y1)
}

/// The drawing of one layer's box, badge and name.
pub open spec fn box_text(width: int, height: int, index: int, layer: Layer) -> Seq<char> {
    let (x0, y0, x1, y1) = box_of(width, height, layer);
    let badge = badge_size(height);
    let stroke = stroke_size(height);
    let color = box_color(index);
    let bx = x0 + stroke;
    let by = y0 + stroke;
    "<rect x=\""@ + places2(x0, 1_000_000) + "\" y=\""@ + places2(y0, 1_000_000) + "\" width=\""@
        + places2(x1 - x0, 1_000_000) + "\" height=\""@ + places2(y1 - y0, 1_000_000)
        + "\" fill=\"none\" stroke=\""@ + color + "\" stroke-width=\""@ + places2(
        stroke,
        1_000_000,
    ) + "\"/>"@ + "<rect x=\""@ + places2(bx, 1_000_000) + "\" y=\""@ + places2(by, 1_000_000)
        + "\" width=\""@ + places2(badge * 140, 100_000_000) + "\" height=\""@ + places2(
        badge,
        1_000_000,
    ) + "\" fill=\""@ + color + "\" fill-opacity=\"0.85\"/><text x=\""@ + places2(
        bx * 100 + badge * 35,
        100_000_000,
    ) + "\" y=\""@ + places2(by * 100 + badge * 78, 100_000_000)
        + "\" font-family=\"sans-serif\" font-size=\""@ + places2(badge * 80, 100_000_000)
        + "\" font-weight=\"bold\" fill=\"#000000\">"@ + dec((index + 1) as nat) + "</text>"@
        + "<text x=\""@ + places2(bx * 100 + badge * 160, 100_000_000) + "\" y=\""@ + places2(
        by * 100 + badge * 78,
        100_000_000,
    ) + "\" font-family=\"sans-serif\" font-size=\""@ + places2(badge * 62, 100_000_000)
        + "\" fill=\""@ + color + "\">"@ + xml_escaped(layer.clip@) + "</text>"@
}

pub open spec fn boxes_text(width: int, height: int, layers: Seq<Layer>) -> Seq<char>
    decreases layers.len(),
{
    if layers.len() == 0 {
        seq![]
    } else {
        boxes_text(width, height, layers.drop_last()) + box_text(
            width,
            height,
            layers.len() - 1,
            layers.last(),
        )
    }
}

pub open spec fn annotation_text(width: int, height: int, layers: Seq<Layer>) -> Seq<char> {
    "<svg xmlns=\"http://www.w3.org/2000/svg\" width=\""@ + dec(width as nat) + "\" height=\""@
        + dec(height as nat) + "\" viewBox=\"0 0 "@ + dec(width as nat) + " "@ + dec(height as nat)
        + "\">"@ + boxes_text(width, height, layers) + "</svg>"@
}

fn hold(value: i128, low: i128, high: i128) -> (r: i128)
    ensures
        r == held(value as int, low as int, high as int),
{
    if value < low {
        low
    } else if value > high {
        high
    } else {
        value
    }
}

fn push_box(out: &mut String, width: u32, height: u32, index: usize, layer: &Layer)
    requires
        width > 0,
        height > 0,
    ensures
        final(out)@ == old(out)@ + box_text(width as int, height as int, index as int, *layer),
{
    let fw: i128 = width as i128;
    let fh: i128 = height as i128;
    let x0: i128 = hold(layer.x as i128, 0, (fw - 1) * 1_000_000);
    let y0: i128 = hold(layer.y as i128, 0, (fh - 1) * 1_000_000);
    let x1: i128 = hold(layer.x as i128 + layer.w as i128, x0 + 1_000_000, fw * 1_000_000);
    let y1: i128 = hold(layer.y as i128 + layer.h as i128, y0 + 1_000_000, fh * 1_000_000);
    let badge: i128 = if fh * 35000 < 14_000_000 {
        14_000_000
    } else {
        fh * 35000
    };
    let stroke: i128 = if fh * 4000 < 2_000_000 {
        2_000_000
    } else {
        fh * 4000
    };
    let color = annotation_color(index);
    let bx: i128 = x0 + stroke;
    let by: i128 = y0 + stroke;
    let mut part = "<rect x=\"".to_owned();
    push2(&mut part, x0, 1_000_000);
    part.append("\" y=\"");
    push2(&mut part, y0, 1_000_000);
    part.append("\" width=\"");
    push2(&mut part, x1 - x0, 1_000_000);
    part.append("\" height=\"");
    push2(&mut part, y1 - y0, 1_000_000);
    part.append("\" fill=\"none\" stroke=\"");
    part.append(color);
    part.append("\" stroke-width=\"");
    push2(&mut part, stroke, 1_000_000);
    part.append("\"/>");
    part.append("<rect x=\"");
    push2(&mut part, bx, 1_000_000);
    part.append("\" y=\"");
    push2(&mut part, by, 1_000_000);
    part.append("\" width=\"");
    push2(&mut part, badge * 140, 100_000_000);
    part.append("\" height=\"");
    push2(&mut part, badge, 1_000_000);
    part.append("\" fill=\"");
    part.append(color);
    part.append("\" fill-opacity=\"0.85\"/><text x=\"");
    push2(&mut part, bx * 100 + badge * 35, 100_000_000);
    part.append("\" y=\"");
    push2(&mut part, by * 100 + badge * 78, 100_000_000);
    part.append("\" font-family=\"sans-serif\" font-size=\"");
    push2(&mut part, badge * 80, 100_000_000);
    part.append("\" font-weight=\"bold\" fill=\"#000000\">");
    push_dec(&mut part, index as u128 + 1);
    part.append("</text>");
    part.append("<text x=\"");
    push2(&mut part, bx * 100 + badge * 160, 100_000_000);
    part.append("\" y=\"");
    push2(&mut part, by * 100 + badge * 78, 100_000_000);
    part.append("\" font-family=\"sans-serif\" font-size=\"");
    push2(&mut part, badge * 62, 100_000_000);
    part.append("\" fill=\"");
    part.append(color);
    part.append("\">");
    push_escaped(&mut part, layer.clip.as_str());
    part.append("</text>");
    out.append(part.as_str());
}

/// Draws numbered boxes around the layers of a frame.
pub fn annotation_svg(width: u32, height: u32, layers: &Vec<Layer>) -> (r: String)
    requires
        width > 0,
        height > 0,
    ensures
        r@ == annotation_text(width as int, height as int, layers@),
{
    let mut boxes = String::new();
    let mut i: usize = 0;
    assert(layers@.take(0) =~= seq![]);
    assert(boxes@ =~= seq![]);
    while i < layers.len()
        invariant
            i <= layers@.len(),
            width > 0,
            height > 0,
            boxes@ == boxes_text(width as int, height as int, layers@.take(i as int)),
        decreases layers@.len() - i,
    {
        assert(layers@.take(i + 1).drop_last() =~= layers@.take(i as int));
        push_box(&mut boxes, width, height, i, &layers[i]);
        i = i + 1;
    }
    assert(layers@.take(i as int) =~= layers@);
    let w: u128 = width as u128;
    let h: u128 = height as u128;
    let mut out = "<svg xmlns=\"http://www.w3.org/2000/svg\" width=\"".to_owned();
    push_dec(&mut out, w);
    out.append("\" height=\"");
    push_dec(&mut out, h);
    out.append("\" viewBox=\"0 0 ");
    push_dec(&mut out, w);
    out.append(" ");
    push_dec(&mut out, h);
    out.append("\">");
    out.append(boxes.as_str());
    out.append("</svg>");
    out
}

/// A box is never empty, and lies in the frame, wherever its layer does.
pub proof fn law_a_box_can_be_seen(width: int, height: int, layer: Layer)
    requires
        width > 0,
        height > 0,
    ensures
        ({
            let (x0, y0, x1, y1) = box_of(width, height, layer);
            0 <= x0 < x1 <= width * 1_000_000 && 0 <= y0 < y1 <= height * 1_000_000
        }),
{
}

} // verus!
