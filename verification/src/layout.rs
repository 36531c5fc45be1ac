//! Geometry of the debug preview: box outlines, step labels, the grid of
//! stages, and grey-to-colour pixel conversion.

use vstd::prelude::*;

verus! {

/// A rectangle to draw: top-left corner (which may lie off the canvas) and
/// a positive size.
#[derive(Debug, Clone, Copy, PartialEq, Eq, Structural)]
pub struct DrawRect {
    pub left: i32,
    pub top: i32,
    pub width: u32,
    pub height: u32,
}

/// The two nested outlines (one pixel apart) that mark a detected box with
/// top-left corner (`x`, `y`) and size `w` x `h`.
pub fn outline_frames(x: u32, y: u32, w: u32, h: u32) -> (frames: Vec<DrawRect>)
    requires
        w > 0,
        h > 0,
        w + 2 <= u32::MAX,
        h + 2 <= u32::MAX,
        x != 0x8000_0000u32,
        y != 0x8000_0000u32,
    ensures
        frames@ == seq![
            DrawRect { left: x as i32, top: y as i32, width: w, height: h },
            DrawRect { left: (x as i32 - 1) as i32, top: (y as i32 - 1) as i32, width: (w + 2) as u32, height: (h + 2) as u32 },
        ],
{
    let mut frames: Vec<DrawRect> = Vec::new();
    let left = #[verifier::truncate] (x as i32);
    let top = #[verifier::truncate] (y as i32);
    assert(left != i32::MIN) by (bit_vector)
        requires
            x != 0x8000_0000u32,
            left == x as i32,
    ;
    assert(top != i32::MIN) by (bit_vector)
        requires
            y != 0x8000_0000u32,
            top == y as i32,
    ;
    frames.push(DrawRect { left, top, width: w, height: h });
    frames.push(DrawRect { left: left - 1, top: top - 1, width: w + 2, height: h + 2 });
    frames
}

/// Whether the character is an ASCII decimal digit.
pub open spec fn is_digit(c: char) -> bool {
    '0' <= c <= '9'
}

/// What `char::is_uppercase` answers (the Unicode `Uppercase` property).
pub uninterp spec fn char_is_uppercase(c: char) -> bool;

/// `char::is_uppercase`. The contract claims only that the answer is the
/// named property `char_is_uppercase` of the character.
#[verifier::external_body]
fn is_uppercase(c: char) -> (b: bool)
    ensures
        b == char_is_uppercase(c),
{
    c.is_uppercase()
}

/// The colour of a stage label, chosen by the stage number it starts with.
pub open spec fn label_color(label: Seq<char>) -> (u8, u8, u8) {
    if label.len() > 0 && label[0] == '1' {
        (100, 149, 237)
    } else if label.len() > 0 && label[0] == '2' {
        (60, 179, 113)
    } else if label.len() > 0 && label[0] == '3' {
        (255, 165, 0)
    } else if label.len() > 0 && label[0] == '4' {
        (220, 20, 60)
    } else if label.len() > 0 && label[0] == '5' {
        (147, 112, 219)
    } else if label.len() > 0 && label[0] == '6' {
        (255, 215, 0)
    } else {
        (128, 128, 128)
    }
}

/// Height of a label bar.
pub const LABEL_HEIGHT: u32 = 35;

/// Whether a glyph bar for `c` is drawn tall.
pub open spec fn tall(c: char) -> bool {
    char_is_uppercase(c) || is_digit(c)
}

/// The bar that stands for the character `c` at position `idx` of the text
/// after the stage number, in a label drawn at (`x`, `y`).
pub open spec fn glyph_bar(x: u32, y: u32, idx: int, c: char) -> DrawRect {
    DrawRect {
        left: ((x + 35 + idx * 9) as u32) as i32,
        top: ((y + 14 + if tall(c) { 0int } else { 2int }) as u32) as i32,
        width: 7,
        height: if tall(c) { 6 } else { 4 },
    }
}

/// The bars for the characters of `text`, spaces left out.
pub open spec fn glyph_bars(x: u32, y: u32, text: Seq<char>) -> Seq<DrawRect>
    decreases text.len(),
{
    if text.len() == 0 {
        Seq::empty()
    } else {
        let front = glyph_bars(x, y, text.drop_last());
        if text.last() == ' ' {
            front
        } else {
            front.push(glyph_bar(x, y, text.len() - 1, text.last()))
        }
    }
}

/// The text of a label after its first three characters ("1. ").
pub open spec fn label_text(label: Seq<char>) -> Seq<char> {
    if label.len() <= 3 { Seq::empty() } else { label.subrange(3, label.len() as int) }
}

/// The positions at which drawing the label stays within integer range.
pub open spec fn label_fits(x: u32, y: u32, width: u32, label: Seq<char>) -> bool {
    &&& width >= 3
    &&& x + 35 <= u32::MAX
    &&& y + 17 <= u32::MAX
    &&& x != 0x7FFF_FFFFu32
    &&& y != 0x7FFF_FFFFu32
    &&& (label.len() > 0 && is_digit(label[0])) ==> (x + 5 != 0x7FFF_FFFE && x + 5 != 0x7FFF_FFFF
        && y + 7 != 0x7FFF_FFFE && y + 7 != 0x7FFF_FFFF)
    &&& forall|idx: int| 0 <= idx < label_text(label).len() && label_text(label)[idx] != ' ' ==>
        x + 35 + 9 * idx <= u32::MAX
}

/// The drawing of a stage label: a coloured bar, a two-pixel black border,
/// a square marker for the stage number, and a small bar for each character
/// of the text.
pub struct LabelBox {
    pub color: (u8, u8, u8),
    pub background: DrawRect,
    pub borders: Vec<DrawRect>,
    pub step_marker: Option<(DrawRect, DrawRect)>,
    pub glyphs: Vec<DrawRect>,
}

/// Lays out the label box `label` drawn at (`x`, `y`) with the given width.
pub fn label_box(x: u32, y: u32, width: u32, label: &str) -> (b: LabelBox)
    requires
        label_fits(x, y, width, label@),
    ensures
        b.color == label_color(label@),
        b.background == (DrawRect { left: x as i32, top: y as i32, width, height: LABEL_HEIGHT }),
        b.borders@ == seq![
            DrawRect { left: x as i32, top: y as i32, width, height: LABEL_HEIGHT },
            DrawRect { left: (x as i32 + 1) as i32, top: (y as i32 + 1) as i32, width: (width - 2) as u32, height: (LABEL_HEIGHT - 2) as u32 },
        ],
        (label@.len() > 0 && is_digit(label@[0])) ==> b.step_marker == Some((
            DrawRect { left: ((x + 5) as u32) as i32, top: ((y + 7) as u32) as i32, width: 20u32, height: 20u32 },
            DrawRect { left: (((x + 5) as u32) as i32 + 2) as i32, top: (((y + 7) as u32) as i32 + 2) as i32, width: 16u32, height: 16u32 },
        )),
        !(label@.len() > 0 && is_digit(label@[0])) ==> b.step_marker is None,
        b.glyphs@ == glyph_bars(x, y, label_text(label@)),
{
    let len = label.unicode_len();
    let first: Option<char> = if len > 0 { Some(label.get_char(0)) } else { None };
    let color = match first {
        Some('1') => (100u8, 149u8, 237u8),
        Some('2') => (60u8, 179u8, 113u8),
        Some('3') => (255u8, 165u8, 0u8),
        Some('4') => (220u8, 20u8, 60u8),
        Some('5') => (147u8, 112u8, 219u8),
        Some('6') => (255u8, 215u8, 0u8),
        _ => (128u8, 128u8, 128u8),
    };
    let left = #[verifier::truncate] (x as i32);
    let top = #[verifier::truncate] (y as i32);
    assert(left != i32::MAX) by (bit_vector)
        requires
            x != 0x7FFF_FFFFu32,
            left == x as i32,
    ;
    assert(top != i32::MAX) by (bit_vector)
        requires
            y != 0x7FFF_FFFFu32,
            top == y as i32,
    ;
    let background = DrawRect { left, top, width, height: LABEL_HEIGHT };
    let mut borders: Vec<DrawRect> = Vec::new();
    borders.push(DrawRect { left, top, width, height: LABEL_HEIGHT });
    borders.push(DrawRect { left: left + 1, top: top + 1, width: width - 2, height: LABEL_HEIGHT - 2 });

    let step_x = x + 5;
    let step_y = y + (LABEL_HEIGHT - 20) / 2;
    let step_marker = match first {
        Some(c) => {
            if '0' <= c && c <= '9' {
                let sx = #[verifier::truncate] (step_x as i32);
                let sy = #[verifier::truncate] (step_y as i32);
                assert(sx <= i32::MAX - 2) by (bit_vector)
                    requires
                        step_x != 0x7FFF_FFFEu32,
                        step_x != 0x7FFF_FFFFu32,
                        sx == step_x as i32,
                ;
                assert(sy <= i32::MAX - 2) by (bit_vector)
                    requires
                        step_y != 0x7FFF_FFFEu32,
                        step_y != 0x7FFF_FFFFu32,
                        sy == step_y as i32,
                ;
                Some((
                    DrawRect { left: sx, top: sy, width: 20, height: 20 },
                    DrawRect { left: sx + 2, top: sy + 2, width: 16, height: 16 },
                ))
            } else {
                None
            }
        },
        None => None,
    };

    let text_x = x + 35;
    let text_y = y + LABEL_HEIGHT / 2 - 3;
    let mut glyphs: Vec<DrawRect> = Vec::new();
    if len > 3 {
        let mut i: usize = 3;
        assert(label@.subrange(3, 3) =~= Seq::<char>::empty());
        while i < len
            invariant
                3 <= i <= len,
                len == label@.len(),
                label_fits(x, y, width, label@),
                text_x == x + 35,
                text_y == y + 14,
                label_text(label@) == label@.subrange(3, len as int),
                glyphs@ == glyph_bars(x, y, label@.subrange(3, i as int)),
            decreases len - i,
        {
            let c = label.get_char(i);
            let idx = i - 3;
            let ghost text = label@.subrange(3, (i + 1) as int);
            proof {
                assert(text.drop_last() =~= label@.subrange(3, i as int));
                assert(text.last() == c);
                assert(label_text(label@)[idx as int] == c);
            }
            if c != ' ' {
                assert(x + 35 + 9 * idx <= u32::MAX);
                let bar_x = text_x + (idx as u32) * 9;
                let is_tall = is_uppercase(c) || ('0' <= c && c <= '9');
                let height: u32 = if is_tall { 6 } else { 4 };
                let y_offset: u32 = if is_tall { 0 } else { 2 };
                let bar_left = #[verifier::truncate] (bar_x as i32);
                let bar_top = #[verifier::truncate] ((text_y + y_offset) as i32);
                glyphs.push(DrawRect { left: bar_left, top: bar_top, width: 7, height });
            }
            i = i + 1;
        }
        assert(label@.subrange(3, len as int) == label_text(label@));
    } else {
        assert(label_text(label@) =~= Seq::<char>::empty());
    }
    LabelBox { color, background, borders, step_marker, glyphs }
}

/// Width of each stage image in the preview.
pub const PREVIEW_TILE_WIDTH: u32 = 800;

/// Space around and between the stage images.
pub const PREVIEW_PADDING: u32 = 20;

/// The size of the preview and where each stage goes: its label box is
/// drawn at the tile's corner and its image just below the label.
pub struct GridLayout {
    pub width: u32,
    pub height: u32,
    pub tiles: Vec<(u32, u32)>,
}

/// Number of rows that `count` tiles need in `columns` columns.
pub open spec fn grid_rows(count: int, columns: int) -> int {
    (count + columns - 1) / columns
}

/// The corner of tile `idx`.
pub open spec fn tile_corner(idx: int, columns: int, tile_height: int) -> (u32, u32) {
    (
        (20 + (idx % columns) * 820) as u32,
        (20 + (idx / columns) * (tile_height + 55)) as u32,
    )
}

/// The sizes for which the grid stays within integer range.
pub open spec fn grid_fits(count: int, columns: int, tile_height: int) -> bool {
    &&& columns > 0
    &&& count + columns <= usize::MAX
    &&& columns * 820 + 20 <= u32::MAX
    &&& tile_height + 55 <= u32::MAX
    &&& grid_rows(count, columns) * (tile_height + 55) + 20 <= u32::MAX
}

/// Lays out `count` stage images of height `tile_height` in `columns`
/// columns; with no images there is nothing to preview.
pub fn preview_grid_layout(count: usize, columns: usize, tile_height: u32) -> (r: Result<GridLayout, String>)
    requires
        count > 0 ==> grid_fits(count as int, columns as int, tile_height as int),
    ensures
        count == 0 <==> r is Err,
        r matches Err(e) ==> e@ == "No images to create preview"@,
        r matches Ok(g) ==> {
            &&& g.width == columns * 820 + 20
            &&& g.height == grid_rows(count as int, columns as int) * (tile_height + 55) + 20
            &&& g.tiles.len() == count
            &&& forall|i: int| 0 <= i < count ==> #[trigger] g.tiles@[i] == tile_corner(i, columns as int, tile_height as int)
        },
{
    if count == 0 {
        return Err(String::from_str("No images to create preview"));
    }
    let rows = (count + columns - 1) / columns;
    let step_y = tile_height + LABEL_HEIGHT + PREVIEW_PADDING;
    assert(rows * step_y + 20 <= u32::MAX);
    assert(rows <= u32::MAX) by (nonlinear_arith)
        requires
            rows * step_y + 20 <= u32::MAX,
            step_y >= 55,
    ;
    let width = (columns as u32) * (PREVIEW_TILE_WIDTH + PREVIEW_PADDING) + PREVIEW_PADDING;
    let height = (rows as u32) * step_y + PREVIEW_PADDING;
    let mut tiles: Vec<(u32, u32)> = Vec::new();
    for idx in 0..count
        invariant
            grid_fits(count as int, columns as int, tile_height as int),
            rows == grid_rows(count as int, columns as int),
            step_y == tile_height + 55,
            tiles.len() == idx,
            forall|i: int| 0 <= i < idx ==> #[trigger] tiles@[i] == tile_corner(i, columns as int, tile_height as int),
    {
        let row = idx / columns;
        let col = idx % columns;
        assert(col * 820 + 20 <= u32::MAX) by (nonlinear_arith)
            requires
                col < columns,
                columns * 820 + 20 <= u32::MAX,
        ;
        assert(row < rows) by (nonlinear_arith)
            requires
                row == idx / columns,
                idx < count,
                rows as int == (count as int + columns as int - 1) / (columns as int),
                columns > 0,
        ;
        assert(row * step_y + 20 <= u32::MAX) by (nonlinear_arith)
            requires
                row < rows,
                rows * step_y + 20 <= u32::MAX,
        ;
        assert(row <= u32::MAX) by (nonlinear_arith)
            requires
                row * step_y + 20 <= u32::MAX,
                step_y >= 55,
        ;
        let x = PREVIEW_PADDING + (col as u32) * (PREVIEW_TILE_WIDTH + PREVIEW_PADDING);
        let y = PREVIEW_PADDING + (row as u32) * step_y;
        tiles.push((x, y));
    }
    Ok(GridLayout { width, height, tiles })
}

/// Spreads each grey level over the three colour channels, pixel by pixel.
pub fn gray_to_rgb_pixels(gray: &Vec<u8>) -> (rgb: Vec<u8>)
    requires
        gray.len() * 3 <= usize::MAX,
    ensures
        rgb.len() == gray.len() * 3,
        forall|i: int, c: int| 0 <= i < gray.len() && 0 <= c < 3 ==> #[trigger] rgb@[3 * i + c] == gray@[i],
{
    let mut rgb: Vec<u8> = Vec::new();
    for i in 0..gray.len()
        invariant
            rgb.len() == 3 * i,
            forall|j: int, c: int| 0 <= j < i && 0 <= c < 3 ==> #[trigger] rgb@[3 * j + c] == gray@[j],
    {
        let v = gray[i];
        rgb.push(v);
        rgb.push(v);
        rgb.push(v);
    }
    rgb
}

} // verus!

verus! {

/// Different stage images get different places in the preview grid.
pub proof fn preview_tiles_are_distinct(count: int, columns: int, tile_height: int, i: int, j: int)
    requires
        grid_fits(count, columns, tile_height),
        tile_height >= 0,
        0 <= i < count,
        0 <= j < count,
        i != j,
    ensures
        tile_corner(i, columns, tile_height) != tile_corner(j, columns, tile_height),
{
    let rows = grid_rows(count, columns);
    let step = tile_height + 55;
    let (ci, cj, ri, rj) = (i % columns, j % columns, i / columns, j / columns);
    assert(0 <= ci < columns && 0 <= cj < columns) by (nonlinear_arith)
        requires
            columns > 0,
            ci == i % columns,
            cj == j % columns,
    ;
    assert(ri < rows && rj < rows && ri >= 0 && rj >= 0) by (nonlinear_arith)
        requires
            columns > 0,
            0 <= i < count,
            0 <= j < count,
            ri == i / columns,
            rj == j / columns,
            rows == (count + columns - 1) / columns,
    ;
    assert(20 + ci * 820 <= u32::MAX && 20 + cj * 820 <= u32::MAX) by (nonlinear_arith)
        requires
            0 <= ci < columns,
            0 <= cj < columns,
            columns * 820 + 20 <= u32::MAX,
    ;
    assert(20 + ri * step <= u32::MAX && 20 + rj * step <= u32::MAX) by (nonlinear_arith)
        requires
            0 <= ri < rows,
            0 <= rj < rows,
            step >= 55,
            rows * step + 20 <= u32::MAX,
    ;
    if tile_corner(i, columns, tile_height) == tile_corner(j, columns, tile_height) {
        assert(ci * 820 == cj * 820);
        assert(ri * step == rj * step);
        assert(ci == cj) by (nonlinear_arith)
            requires
                ci * 820 == cj * 820,
        ;
        assert(ri == rj) by (nonlinear_arith)
            requires
                ri * step == rj * step,
                step > 0,
        ;
        assert(i == j) by (nonlinear_arith)
            requires
                columns > 0,
                ci == i % columns,
                cj == j % columns,
                ri == i / columns,
                rj == j / columns,
                ci == cj,
                ri == rj,
        ;
    }
}

} // verus!
