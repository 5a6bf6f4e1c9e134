use vstd::prelude::*;

use crate::item::{ItemDef, Rarity};

verus! {

// ── Palette ───────────────────────────────────────────────────────────────

/// The named colours of the game's palette.
#[derive(Debug, Clone, Copy, PartialEq, Eq, Structural)]
pub enum Tone {
    Gold,
    WarmWhite,
    Dim,
    Flame,
    Ember,
    ShadowBg,
    Border,
    ForestGreen,
    RarityUncommon,
    RarityRare,
    RarityVeryRare,
    LeafGreen,
    LeafAmber,
}

impl Tone {
    /// The red, green and blue of a palette colour.
    pub fn rgb(self) -> (c: (u8, u8, u8))
        ensures
            c == match self {
                Tone::Gold => (212u8, 160u8, 32u8),
                Tone::WarmWhite => (240u8, 230u8, 210u8),
                Tone::Dim => (100u8, 85u8, 65u8),
                Tone::Flame => (255u8, 140u8, 40u8),
                Tone::Ember => (200u8, 80u8, 20u8),
                Tone::ShadowBg => (30u8, 25u8, 20u8),
                Tone::Border => (80u8, 65u8, 45u8),
                Tone::ForestGreen => (75u8, 130u8, 70u8),
                Tone::RarityUncommon => (90u8, 180u8, 90u8),
                Tone::RarityRare => (80u8, 150u8, 230u8),
                Tone::RarityVeryRare => (170u8, 100u8, 220u8),
                Tone::LeafGreen => (90u8, 130u8, 60u8),
                Tone::LeafAmber => (150u8, 110u8, 50u8),
            },
    {
        match self {
            Tone::Gold => (212, 160, 32),
            Tone::WarmWhite => (240, 230, 210),
            Tone::Dim => (100, 85, 65),
            Tone::Flame => (255, 140, 40),
            Tone::Ember => (200, 80, 20),
            Tone::ShadowBg => (30, 25, 20),
            Tone::Border => (80, 65, 45),
            Tone::ForestGreen => (75, 130, 70),
            Tone::RarityUncommon => (90, 180, 90),
            Tone::RarityRare => (80, 150, 230),
            Tone::RarityVeryRare => (170, 100, 220),
            Tone::LeafGreen => (90, 130, 60),
            Tone::LeafAmber => (150, 110, 50),
        }
    }
}

/// The colour an item's name is drawn in: common items in warm white
/// (the common rarity colour is the same), then green, blue and purple.
pub fn rarity_color(rarity: Rarity) -> (t: Tone)
    ensures
        t == match rarity {
            Rarity::Common => Tone::WarmWhite,
            Rarity::Uncommon => Tone::RarityUncommon,
            Rarity::Rare => Tone::RarityRare,
            Rarity::VeryRare => Tone::RarityVeryRare,
        },
{
    match rarity {
        Rarity::Common => Tone::WarmWhite,
        Rarity::Uncommon => Tone::RarityUncommon,
        Rarity::Rare => Tone::RarityRare,
        Rarity::VeryRare => Tone::RarityVeryRare,
    }
}

// ── Half-block pictures ───────────────────────────────────────────────────

/// A pixel with red, green, blue and alpha.
#[derive(Debug, Clone, Copy, PartialEq, Eq, Structural)]
pub struct Pixel {
    pub r: u8,
    pub g: u8,
    pub b: u8,
    pub a: u8,
}

/// The character of a half-block cell: lower half `▄`, upper half `▀`, or blank.
#[derive(Debug, Clone, Copy, PartialEq, Eq, Structural)]
pub enum Glyph {
    Lower,
    Upper,
    Blank,
}

/// One terminal cell showing two stacked pixels: a glyph with optional
/// foreground and background colours.
#[derive(Debug, Clone, Copy, PartialEq, Eq)]
pub struct HalfCell {
    pub glyph: Glyph,
    pub fg: Option<(u8, u8, u8)>,
    pub bg: Option<(u8, u8, u8)>,
}

/// Alpha above which a pixel counts as drawn.
pub const ALPHA_VISIBLE: u8 = 80;

/// The cell for a top and a bottom pixel: both drawn gives a lower half
/// block in the bottom colour over the top colour; one drawn gives that
/// half block in its colour; neither gives a blank.
pub open spec fn cell_of(top: Pixel, bot: Pixel) -> HalfCell {
    let ta = top.a > ALPHA_VISIBLE;
    let ba = bot.a > ALPHA_VISIBLE;
    if ta && ba {
        HalfCell { glyph: Glyph::Lower, fg: Some((bot.r, bot.g, bot.b)), bg: Some((top.r, top.g, top.b)) }
    } else if ta {
        HalfCell { glyph: Glyph::Upper, fg: Some((top.r, top.g, top.b)), bg: None }
    } else if ba {
        HalfCell { glyph: Glyph::Lower, fg: Some((bot.r, bot.g, bot.b)), bg: None }
    } else {
        HalfCell { glyph: Glyph::Blank, fg: None, bg: None }
    }
}

/// Packs a top/bottom pixel pair into one cell.
pub fn pixels_to_cell(top: Pixel, bot: Pixel) -> (c: HalfCell)
    ensures
        c == cell_of(top, bot),
{
    let ta = top.a > ALPHA_VISIBLE;
    let ba = bot.a > ALPHA_VISIBLE;
    if ta && ba {
        HalfCell { glyph: Glyph::Lower, fg: Some((bot.r, bot.g, bot.b)), bg: Some((top.r, top.g, top.b)) }
    } else if ta {
        HalfCell { glyph: Glyph::Upper, fg: Some((top.r, top.g, top.b)), bg: None }
    } else if ba {
        HalfCell { glyph: Glyph::Lower, fg: Some((bot.r, bot.g, bot.b)), bg: None }
    } else {
        HalfCell { glyph: Glyph::Blank, fg: None, bg: None }
    }
}

/// One colour channel taken out of premultiplied alpha: `c * 255 / a`,
/// kept to its low eight bits.
pub open spec fn unpremul(c: u8, a: u8) -> u8 {
    ((c as int * 255 / a as int) % 256) as u8
}

/// The pixel stored premultiplied as `(r, g, b, a)`; fully transparent
/// pixels read as transparent black.
pub open spec fn straight_pixel(r: u8, g: u8, b: u8, a: u8) -> Pixel {
    if a == 0 {
        Pixel { r: 0, g: 0, b: 0, a: 0 }
    } else {
        Pixel { r: unpremul(r, a), g: unpremul(g, a), b: unpremul(b, a), a }
    }
}

fn unpremul_channel(c: u8, a: u8) -> (v: u8)
    requires
        a > 0,
    ensures
        v == unpremul(c, a),
{
    let x: u16 = c as u16 * 255 / a as u16;
    assert(x as u8 == (x % 256) as u8) by (bit_vector);
    x as u8
}

/// The pixel at `(x, y)` of an RGBA buffer `w` pixels wide, read as stored
/// or taken out of premultiplied alpha.
pub open spec fn pixel_at(data: Seq<u8>, w: int, x: int, y: int, premultiplied: bool) -> Pixel {
    let i = (y * w + x) * 4;
    if premultiplied {
        straight_pixel(data[i], data[i + 1], data[i + 2], data[i + 3])
    } else {
        Pixel { r: data[i], g: data[i + 1], b: data[i + 2], a: data[i + 3] }
    }
}

/// The fully transparent pixel that stands below an odd last row.
pub open spec fn clear_pixel() -> Pixel {
    Pixel { r: 0, g: 0, b: 0, a: 0 }
}

/// Cell `x` of the terminal row drawn from pixel rows `y` and `y + 1`.
pub open spec fn cell_at(data: Seq<u8>, w: int, h: int, x: int, y: int, premultiplied: bool) -> HalfCell {
    cell_of(
        pixel_at(data, w, x, y, premultiplied),
        if y + 1 < h {
            pixel_at(data, w, x, y + 1, premultiplied)
        } else {
            clear_pixel()
        },
    )
}

/// The picture as terminal rows: row `k` packs pixel rows `2k` and `2k + 1`.
pub open spec fn cells_match(rows: Seq<Seq<HalfCell>>, data: Seq<u8>, w: int, h: int, premultiplied: bool) -> bool {
    &&& rows.len() == (h + 1) / 2
    &&& forall|k: int| 0 <= k < rows.len() ==> (#[trigger] rows[k]).len() == w
    &&& forall|k: int, x: int|
        0 <= k < rows.len() && 0 <= x < w ==> #[trigger] rows[k][x] == cell_at(data, w, h, x, 2 * k, premultiplied)
}

fn read_pixel(data: &Vec<u8>, w: u32, x: u32, y: u32, premultiplied: bool) -> (p: Pixel)
    requires
        x < w,
        data@.len() >= (y * w + x) * 4 + 4,
    ensures
        p == pixel_at(data@, w as int, x as int, y as int, premultiplied),
{
    let len = data.len();
    proof {
        assert(0 <= y * w) by (nonlinear_arith);
    }
    let i = ((y as usize) * (w as usize) + (x as usize)) * 4;
    let (r, g, b, a) = (data[i], data[i + 1], data[i + 2], data[i + 3]);
    if !premultiplied {
        return Pixel { r, g, b, a };
    }
    if a == 0 {
        return Pixel { r: 0, g: 0, b: 0, a: 0 };
    }
    Pixel { r: unpremul_channel(r, a), g: unpremul_channel(g, a), b: unpremul_channel(b, a), a }
}

fn pair_rows(data: &Vec<u8>, w: u32, h: u32, premultiplied: bool) -> (rows: Vec<Vec<HalfCell>>)
    requires
        data@.len() == 4 * w * h,
    ensures
        cells_match(rows@.map_values(|r: Vec<HalfCell>| r@), data@, w as int, h as int, premultiplied),
{
    let mut rows: Vec<Vec<HalfCell>> = Vec::new();
    let n_rows: u32 = h / 2 + h % 2;
    let mut k: u32 = 0;
    while k < n_rows
        invariant
            data@.len() == 4 * w * h,
            n_rows == (h + 1) / 2,
            k <= n_rows,
            rows@.len() == k,
            forall|k: int| 0 <= k < rows@.len() ==> (#[trigger] rows@[k])@.len() == w,
            forall|k: int, x: int|
                0 <= k < rows@.len() && 0 <= x < w ==> #[trigger] rows@[k]@[x] == cell_at(
                    data@,
                    w as int,
                    h as int,
                    x,
                    2 * k,
                    premultiplied,
                ),
        decreases n_rows - k,
    {
        let y: u32 = 2 * k;
        let mut row: Vec<HalfCell> = Vec::new();
        let mut x: u32 = 0;
        while x < w
            invariant
                data@.len() == 4 * w * h,
                y < h,
                x <= w,
                row@.len() == x,
                forall|j: int| 0 <= j < x ==> #[trigger] row@[j] == cell_at(data@, w as int, h as int, j, y as int, premultiplied),
            decreases w - x,
        {
            proof {
                assert((y + 1) * w <= h * w) by (nonlinear_arith)
                    requires
                        y < h,
                ;
                assert(h * w == w * h) by (nonlinear_arith);
                assert((y * w + x) * 4 + 4 <= 4 * w * h) by (nonlinear_arith)
                    requires
                        x < w,
                        (y + 1) * w <= w * h,
                ;
            }
            let top = read_pixel(data, w, x, y, premultiplied);
            let bot = if y + 1 < h {
                proof {
                    assert((y + 2) * w <= h * w) by (nonlinear_arith)
                        requires
                            y + 1 < h,
                    ;
                    assert(((y + 1) * w + x) * 4 + 4 <= 4 * w * h) by (nonlinear_arith)
                        requires
                            x < w,
                            (y + 2) * w <= w * h,
                    ;
                }
                read_pixel(data, w, x, y + 1, premultiplied)
            } else {
                Pixel { r: 0, g: 0, b: 0, a: 0 }
            };
            row.push(pixels_to_cell(top, bot));
            x += 1;
        }
        rows.push(row);
        proof {
            assert(rows@[rows@.len() - 1]@ == row@);
        }
        k += 1;
    }
    proof {
        assert(rows@.len() == (h + 1) / 2);
    }
    rows
}

/// Packs a straight-alpha RGBA picture `w` by `h` pixels (row by row, four
/// bytes a pixel) into terminal rows of half-block cells.
pub fn rgba_cells(data: &Vec<u8>, w: u32, h: u32) -> (rows: Vec<Vec<HalfCell>>)
    requires
        data@.len() == 4 * w * h,
    ensures
        cells_match(rows@.map_values(|r: Vec<HalfCell>| r@), data@, w as int, h as int, false),
{
    pair_rows(data, w, h, false)
}

/// Packs a premultiplied-alpha RGBA picture (as vector renderers produce)
/// into terminal rows of half-block cells, taking the alpha out first.
pub fn pixmap_cells(data: &Vec<u8>, w: u32, h: u32) -> (rows: Vec<Vec<HalfCell>>)
    requires
        data@.len() == 4 * w * h,
    ensures
        cells_match(rows@.map_values(|r: Vec<HalfCell>| r@), data@, w as int, h as int, true),
{
    pair_rows(data, w, h, true)
}

// ── Ambient particles ─────────────────────────────────────────────────────

/// The hash deciding whether column `i` shows an ember at frame `frame`.
pub open spec fn ember_hash(i: u64, frame: u64) -> u64 {
    (i.wrapping_mul(2654435761) ^ frame.wrapping_mul(40503)) % 100
}

/// The ember in column `i` at frame `frame`, if any: two columns in a
/// hundred glow, one bright, one dim.
pub open spec fn ember_at(frame: u64, i: int) -> Option<Tone> {
    let h = ember_hash(i as u64, frame);
    if h < 2 {
        Some(
            if h == 0 {
                Tone::Flame
            } else {
                Tone::Ember
            },
        )
    } else {
        None
    }
}

/// A row of drifting embers `width` columns wide at frame `frame_count`.
pub fn ember_line(frame_count: u64, width: u16) -> (cells: Vec<Option<Tone>>)
    ensures
        cells@.len() == width,
        forall|i: int| 0 <= i < width ==> #[trigger] cells@[i] == ember_at(frame_count, i),
{
    let mut cells: Vec<Option<Tone>> = Vec::new();
    let mut i: u16 = 0;
    while i < width
        invariant
            i <= width,
            cells@.len() == i,
            forall|j: int| 0 <= j < i ==> #[trigger] cells@[j] == ember_at(frame_count, j),
        decreases width - i,
    {
        let hash = ((i as u64).wrapping_mul(2654435761) ^ frame_count.wrapping_mul(40503)) % 100;
        if hash < 2 {
            let c = if hash == 0 {
                Tone::Flame
            } else {
                Tone::Ember
            };
            cells.push(Some(c));
        } else {
            cells.push(None);
        }
        i += 1;
    }
    cells
}

/// The hash deciding whether column `i` of row `row_seed` shows a leaf at frame `frame`.
pub open spec fn leaf_hash(i: u64, frame: u64, row_seed: u16) -> u64 {
    ((((i + frame / 4) as u64) ^ (row_seed as u64).wrapping_mul(2246822519)).wrapping_mul(2654435761)) % 400
}

/// The leaf in column `i` of row `row_seed` at frame `frame`, if any: two
/// columns in four hundred, one green, one amber, drifting one column every
/// four frames.
pub open spec fn leaf_at(frame: u64, i: int, row_seed: u16) -> Option<Tone> {
    let h = leaf_hash(i as u64, frame, row_seed);
    if h < 2 {
        Some(
            if h == 0 {
                Tone::LeafGreen
            } else {
                Tone::LeafAmber
            },
        )
    } else {
        None
    }
}

/// A row of drifting leaves and seeds for forest scenes.
pub fn leaf_line(frame_count: u64, width: u16, row_seed: u16) -> (cells: Vec<Option<Tone>>)
    ensures
        cells@.len() == width,
        forall|i: int| 0 <= i < width ==> #[trigger] cells@[i] == leaf_at(frame_count, i, row_seed),
{
    let mut cells: Vec<Option<Tone>> = Vec::new();
    let mut i: u16 = 0;
    while i < width
        invariant
            i <= width,
            cells@.len() == i,
            forall|j: int| 0 <= j < i ==> #[trigger] cells@[j] == leaf_at(frame_count, j, row_seed),
        decreases width - i,
    {
        let drift = frame_count / 4;
        let hash = ((i as u64 + drift) ^ (row_seed as u64).wrapping_mul(2246822519)).wrapping_mul(2654435761) % 400;
        if hash < 2 {
            let c = if hash == 0 {
                Tone::LeafGreen
            } else {
                Tone::LeafAmber
            };
            cells.push(Some(c));
        } else {
            cells.push(None);
        }
        i += 1;
    }
    cells
}

// ── Item icon stand-in ────────────────────────────────────────────────────

/// A character with ASCII lower-case letters raised to upper case.
pub open spec fn ascii_upper(c: char) -> char {
    if 'a' <= c <= 'z' {
        (c as int - 32) as char
    } else {
        c
    }
}

/// The letter on an item's stand-in icon: the first letter of its name in
/// upper case, or `?` for an unknown item or an empty name.
pub open spec fn icon_letter(def: Option<ItemDef>) -> char {
    match def {
        Some(d) => if d.name@.len() > 0 {
            ascii_upper(d.name@[0])
        } else {
            '?'
        },
        None => '?',
    }
}

/// Rows of an icon `width` columns wide: half as many rows, at least two.
pub open spec fn icon_height(width: int) -> int {
    if width / 2 > 2 {
        width / 2
    } else {
        2
    }
}

fn upper_ascii(c: char) -> (u: char)
    ensures
        u == ascii_upper(c),
{
    if 'a' <= c && c <= 'z' {
        let v: u8 = c as u8;
        (v - 32) as char
    } else {
        c
    }
}

/// The stand-in drawn where an item has no picture: a block of `█` in the
/// item's rarity colour (dim for an unknown item) with its letter in the middle.
pub fn fallback_icon(def: Option<&ItemDef>, width: u16) -> (icon: (Tone, Vec<Vec<char>>))
    ensures
        icon.0 == match def {
            Some(d) => match d.rarity {
                Rarity::Common => Tone::WarmWhite,
                Rarity::Uncommon => Tone::RarityUncommon,
                Rarity::Rare => Tone::RarityRare,
                Rarity::VeryRare => Tone::RarityVeryRare,
            },
            None => Tone::Dim,
        },
        icon.1@.len() == icon_height(width as int),
        forall|y: int| 0 <= y < icon.1@.len() ==> (#[trigger] icon.1@[y])@.len() == width,
        forall|y: int, x: int|
            0 <= y < icon.1@.len() && 0 <= x < width ==> #[trigger] icon.1@[y]@[x] == if y == icon_height(width as int) / 2
                && x == width / 2 {
                icon_letter(
                    match def {
                        Some(d) => Some(*d),
                        None => None,
                    },
                )
            } else {
                '█'
            },
{
    let color = match def {
        Some(d) => rarity_color(d.rarity),
        None => Tone::Dim,
    };
    let first = match def {
        Some(d) => if d.name.as_str().unicode_len() > 0 {
            d.name.as_str().get_char(0)
        } else {
            '?'
        },
        None => '?',
    };
    let letter = upper_ascii(first);
    let height: u16 = if width / 2 > 2 {
        width / 2
    } else {
        2
    };
    let mut lines: Vec<Vec<char>> = Vec::new();
    let mut y: u16 = 0;
    while y < height
        invariant
            height == icon_height(width as int),
            letter == icon_letter(
                match def {
                    Some(d) => Some(*d),
                    None => None,
                },
            ),
            y <= height,
            lines@.len() == y,
            forall|r: int| 0 <= r < lines@.len() ==> (#[trigger] lines@[r])@.len() == width,
            forall|r: int, x: int|
                0 <= r < lines@.len() && 0 <= x < width ==> #[trigger] lines@[r]@[x] == if r == height / 2 && x == width
                    / 2 {
                    letter
                } else {
                    '█'
                },
        decreases height - y,
    {
        let mut row: Vec<char> = Vec::new();
        let mut x: u16 = 0;
        while x < width
            invariant
                x <= width,
                row@.len() == x,
                forall|j: int| 0 <= j < x ==> #[trigger] row@[j] == if y == height / 2 && j == width / 2 {
                    letter
                } else {
                    '█'
                },
            decreases width - x,
        {
            let ch = if y == height / 2 && x == width / 2 {
                letter
            } else {
                '█'
            };
            row.push(ch);
            x += 1;
        }
        lines.push(row);
        proof {
            assert(lines@[lines@.len() - 1]@ == row@);
        }
        y += 1;
    }
    (color, lines)
}

// ── Rectangles ────────────────────────────────────────────────────────────

/// A rectangle of terminal cells.
#[derive(Debug, Clone, Copy, PartialEq, Eq, Structural)]
pub struct Area {
    pub x: u16,
    pub y: u16,
    pub width: u16,
    pub height: u16,
}

/// The smaller of two numbers.
pub open spec fn least(a: int, b: int) -> int {
    if a < b {
        a
    } else {
        b
    }
}

/// Shrinks a rectangle by `dx` columns and `dy` rows on each side, never
/// past its middle.
pub fn inset_rect(r: Area, dx: u16, dy: u16) -> (out: Area)
    requires
        r.x + least(dx as int, r.width as int / 2) <= u16::MAX,
        r.y + least(dy as int, r.height as int / 2) <= u16::MAX,
    ensures
        ({
            let ex = least(dx as int, r.width as int / 2);
            let ey = least(dy as int, r.height as int / 2);
            out == (Area { x: (r.x + ex) as u16, y: (r.y + ey) as u16, width: (r.width - 2 * ex) as u16, height: (r.height - 2 * ey) as u16 })
        }),
{
    let dx = if dx < r.width / 2 {
        dx
    } else {
        r.width / 2
    };
    let dy = if dy < r.height / 2 {
        dy
    } else {
        r.height / 2
    };
    Area { x: r.x + dx, y: r.y + dy, width: r.width - dx * 2, height: r.height - dy * 2 }
}

} // verus!
