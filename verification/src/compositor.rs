//! The 2D compositor: off-screen canvases, the text terminal drawn into one,
//! glyph rendering, and the framebuffer geometry of the screen.
use vstd::prelude::*;
use vstd::string::StrSliceExecFns;
use crate::boot::BootInfo;

verus! {

/// Whether pixel (`px`, `py`) lies in the rectangle at (`sx`, `sy`) of size
/// `w` x `h`.
pub open spec fn in_rect(sx: int, sy: int, w: int, h: int, px: int, py: int) -> bool {
    sx <= px < sx + w && sy <= py < sy + h
}

/// Row-major pixels of width `width` after filling a rectangle with `color`.
pub open spec fn filled(pixels: Seq<u32>, width: int, sx: int, sy: int, w: int, h: int, color: u32) -> Seq<u32> {
    Seq::new(
        pixels.len(),
        |i: int| if in_rect(sx, sy, w, h, i % width, i / width) { color } else { pixels[i] },
    )
}

/// Row-major pixels after scrolling up by `shift` pixels (whole rows times
/// width): everything moves towards the start and the freed tail takes `bg`;
/// a shift of the whole buffer or more clears it to `bg`.
pub open spec fn scrolled(pixels: Seq<u32>, shift: int, bg: u32) -> Seq<u32> {
    if shift >= pixels.len() {
        Seq::new(pixels.len(), |i: int| bg)
    } else {
        pixels.subrange(shift, pixels.len() as int) + Seq::new(shift as nat, |i: int| bg)
    }
}

proof fn lemma_index_split(i: int, width: int, height: int)
    requires
        0 <= i < width * height,
        width > 0,
    ensures
        0 <= i % width < width,
        0 <= i / width < height,
        i == (i / width) * width + i % width,
{
    assert(0 <= i % width < width && i == (i / width) * width + i % width) by (nonlinear_arith)
        requires
            width > 0,
    ;
    assert(0 <= i / width < height) by (nonlinear_arith)
        requires
            width > 0,
            0 <= i < width * height,
            i == (i / width) * width + i % width,
            0 <= i % width < width,
    ;
}

proof fn lemma_index_of(px: int, py: int, width: int)
    requires
        0 <= px < width,
        0 <= py,
    ensures
        (py * width + px) % width == px,
        (py * width + px) / width == py,
{
    vstd::arithmetic::div_mod::lemma_fundamental_div_mod_converse(py * width + px, width, py, px);
}

/// An off-screen canvas: a `width` x `height` block of pixels, row-major,
/// placed at (`x`, `y`) on the screen.
#[derive(Debug)]
pub struct Canvas {
    pub x: usize,
    pub y: usize,
    pub width: usize,
    pub height: usize,
    pub pixels: Vec<u32>,
}

impl Canvas {
    /// Whether the pixel buffer holds exactly `width * height` pixels.
    pub open spec fn wf(&self) -> bool {
        self.pixels@.len() == self.width * self.height
    }

    /// A canvas filled with `bg_color`.
    pub fn new(x: usize, y: usize, width: usize, height: usize, bg_color: u32) -> (r: Self)
        requires
            width * height <= usize::MAX,
        ensures
            r.wf(),
            r.x == x && r.y == y && r.width == width && r.height == height,
            r.pixels@ == Seq::new((width * height) as nat, |i: int| bg_color),
    {
        let pixels = vec![bg_color; width * height];
        assert(pixels@ =~= Seq::new((width * height) as nat, |i: int| bg_color));
        Canvas { x, y, width, height, pixels }
    }

    /// Sets pixel (`px`, `py`) to `color`; pixels outside the canvas are
    /// ignored.
    pub fn draw_pixel(&mut self, px: usize, py: usize, color: u32)
        requires
            old(self).wf(),
        ensures
            final(self).wf(),
            final(self).x == old(self).x && final(self).y == old(self).y,
            final(self).width == old(self).width && final(self).height == old(self).height,
            final(self).pixels@ == if px < old(self).width && py < old(self).height {
                old(self).pixels@.update(py * old(self).width + px, color)
            } else {
                old(self).pixels@
            },
    {
        let n = self.pixels.len();
        if px < self.width && py < self.height {
            proof {
                assert(py * self.width + px < self.width * self.height) by (nonlinear_arith)
                    requires
                        px < self.width,
                        py < self.height,
                ;
                assert(py * self.width <= py * self.width + px);
            }
            self.pixels.set(py * self.width + px, color);
        }
    }

    /// Fills the rectangle at (`start_x`, `start_y`) of size `w` x `h` with
    /// `color`, clipped to the canvas.
    pub fn fill_rect(&mut self, start_x: usize, start_y: usize, w: usize, h: usize, color: u32)
        requires
            old(self).wf(),
            start_x + w <= usize::MAX,
            start_y + h <= usize::MAX,
        ensures
            final(self).wf(),
            final(self).x == old(self).x && final(self).y == old(self).y,
            final(self).width == old(self).width && final(self).height == old(self).height,
            final(self).pixels@ == filled(
                old(self).pixels@,
                old(self).width as int,
                start_x as int,
                start_y as int,
                w as int,
                h as int,
                color,
            ),
    {
        let ghost p0 = self.pixels@;
        let ghost width = self.width as int;
        let mut y = start_y;
        while y < start_y + h
            invariant
                self.wf(),
                self.x == old(self).x && self.y == old(self).y,
                self.width == old(self).width && self.height == old(self).height,
                p0 == old(self).pixels@,
                width == self.width,
                start_y <= y <= start_y + h,
                start_x + w <= usize::MAX,
                start_y + h <= usize::MAX,
                self.pixels@ == filled(p0, width, start_x as int, start_y as int, w as int, y - start_y, color),
            decreases start_y + h - y,
        {
            let mut x = start_x;
            while x < start_x + w
                invariant
                    self.wf(),
                    self.x == old(self).x && self.y == old(self).y,
                    self.width == old(self).width && self.height == old(self).height,
                    p0 == old(self).pixels@,
                    width == self.width,
                    start_y <= y < start_y + h,
                    start_x <= x <= start_x + w,
                    start_x + w <= usize::MAX,
                    start_y + h <= usize::MAX,
                    self.pixels@ == Seq::new(
                        p0.len(),
                        |i: int|
                            if in_rect(start_x as int, start_y as int, w as int, y - start_y, i % width, i / width)
                                || (i / width == y && start_x <= i % width < x) {
                                color
                            } else {
                                p0[i]
                            },
                    ),
                decreases start_x + w - x,
            {
                let ghost before = self.pixels@;
                self.draw_pixel(x, y, color);
                proof {
                    let next = Seq::new(
                        p0.len(),
                        |i: int|
                            if in_rect(start_x as int, start_y as int, w as int, y - start_y, i % width, i / width)
                                || (i / width == y && start_x <= i % width < x + 1) {
                                color
                            } else {
                                p0[i]
                            },
                    );
                    assert forall|i: int| 0 <= i < p0.len() implies self.pixels@[i] == next[i] by {
                        assert(width > 0) by (nonlinear_arith)
                            requires
                                0 <= i < width * self.height,
                                width >= 0,
                                self.height >= 0,
                        ;
                        lemma_index_split(i, width, self.height as int);
                        if x < self.width && y < self.height {
                            lemma_index_of(x as int, y as int, width);
                            assert(y * width + x < width * self.height) by (nonlinear_arith)
                                requires
                                    x < width,
                                    y < self.height,
                            ;
                            assert(self.pixels@ == before.update(y * width + x, color));
                            if i != y * width + x {
                                assert(!(i / width == y && i % width == x));
                                assert(self.pixels@[i] == before[i]);
                            } else {
                                assert(self.pixels@[i] == color);
                            }
                        } else {
                            assert(!(i / width == y && i % width == x));
                            assert(self.pixels@[i] == before[i]);
                        }
                    }
                    assert(self.pixels@ =~= next);
                }
                x = x + 1;
            }
            proof {
                let next = filled(p0, width, start_x as int, start_y as int, w as int, y + 1 - start_y, color);
                assert forall|i: int| 0 <= i < p0.len() implies self.pixels@[i] == next[i] by {}
                assert(self.pixels@ =~= next);
            }
            y = y + 1;
        }
    }

    /// Scrolls the canvas up by `shift_y` rows, filling the freed rows at the
    /// bottom with `bg_color` (see `scrolled`).
    pub fn scroll_up(&mut self, shift_y: usize, bg_color: u32)
        requires
            old(self).wf(),
            shift_y * old(self).width <= usize::MAX,
        ensures
            final(self).wf(),
            final(self).x == old(self).x && final(self).y == old(self).y,
            final(self).width == old(self).width && final(self).height == old(self).height,
            final(self).pixels@ == scrolled(old(self).pixels@, shift_y * old(self).width, bg_color),
    {
        let pixel_shift = shift_y * self.width;
        let len = self.pixels.len();
        if pixel_shift >= len {
            let mut k: usize = 0;
            while k < len
                invariant
                    self.wf(),
                    self.x == old(self).x && self.y == old(self).y,
                    self.width == old(self).width && self.height == old(self).height,
                    len == self.pixels@.len(),
                    k <= len,
                    forall|i: int| 0 <= i < k ==> self.pixels@[i] == bg_color,
                decreases len - k,
            {
                self.pixels.set(k, bg_color);
                k = k + 1;
            }
            assert(self.pixels@ =~= scrolled(old(self).pixels@, pixel_shift as int, bg_color));
            return;
        }
        let ghost p0 = self.pixels@;
        let mut k: usize = 0;
        while k < len - pixel_shift
            invariant
                self.wf(),
                self.x == old(self).x && self.y == old(self).y,
                self.width == old(self).width && self.height == old(self).height,
                p0 == old(self).pixels@,
                len == self.pixels@.len(),
                pixel_shift < len,
                k <= len - pixel_shift,
                forall|i: int| 0 <= i < k ==> self.pixels@[i] == p0[i + pixel_shift],
                forall|i: int| k <= i < len ==> self.pixels@[i] == p0[i],
            decreases len - pixel_shift - k,
        {
            let v = self.pixels[k + pixel_shift];
            self.pixels.set(k, v);
            k = k + 1;
        }
        let mut k: usize = len - pixel_shift;
        while k < len
            invariant
                self.wf(),
                self.x == old(self).x && self.y == old(self).y,
                self.width == old(self).width && self.height == old(self).height,
                p0 == old(self).pixels@,
                len == self.pixels@.len(),
                pixel_shift < len,
                len - pixel_shift <= k <= len,
                forall|i: int| 0 <= i < len - pixel_shift ==> self.pixels@[i] == p0[i + pixel_shift],
                forall|i: int| len - pixel_shift <= i < k ==> self.pixels@[i] == bg_color,
            decreases len - k,
        {
            self.pixels.set(k, bg_color);
            k = k + 1;
        }
        assert(self.pixels@ =~= scrolled(p0, pixel_shift as int, bg_color));
    }
}

/// The 8x8 bitmap of a character in the kernel's font: one byte per row,
/// the most significant bit leftmost. Characters outside the font get a
/// solid block.
pub open spec fn char_bitmap(c: char) -> Seq<u8> {
    match c {
        'A' => seq![0x18u8, 0x24, 0x42, 0x42, 0x7E, 0x42, 0x42, 0x00],
        'B' => seq![0x3Cu8, 0x22, 0x22, 0x3C, 0x22, 0x22, 0x3C, 0x00],
        'C' => seq![0x3Cu8, 0x42, 0x40, 0x40, 0x40, 0x42, 0x3C, 0x00],
        'D' => seq![0x38u8, 0x24, 0x22, 0x22, 0x22, 0x24, 0x38, 0x00],
        'E' => seq![0x7Eu8, 0x40, 0x40, 0x78, 0x40, 0x40, 0x7E, 0x00],
        'F' => seq![0x7Eu8, 0x40, 0x40, 0x78, 0x40, 0x40, 0x40, 0x00],
        'G' => seq![0x3Cu8, 0x42, 0x40, 0x4E, 0x42, 0x42, 0x3C, 0x00],
        'H' => seq![0x42u8, 0x42, 0x42, 0x7E, 0x42, 0x42, 0x42, 0x00],
        'I' => seq![0x3Eu8, 0x08, 0x08, 0x08, 0x08, 0x08, 0x3E, 0x00],
        'J' => seq![0x0Eu8, 0x04, 0x04, 0x04, 0x04, 0x44, 0x38, 0x00],
        'K' => seq![0x44u8, 0x48, 0x50, 0x60, 0x50, 0x48, 0x44, 0x00],
        'L' => seq![0x40u8, 0x40, 0x40, 0x40, 0x40, 0x40, 0x7E, 0x00],
        'M' => seq![0x42u8, 0x66, 0x5A, 0x42, 0x42, 0x42, 0x42, 0x00],
        'N' => seq![0x42u8, 0x62, 0x52, 0x4A, 0x46, 0x42, 0x42, 0x00],
        'O' => seq![0x3Cu8, 0x42, 0x42, 0x42, 0x42, 0x42, 0x3C, 0x00],
        'P' => seq![0x3Cu8, 0x42, 0x42, 0x3C, 0x40, 0x40, 0x40, 0x00],
        'Q' => seq![0x3Cu8, 0x42, 0x42, 0x42, 0x4A, 0x44, 0x3A, 0x00],
        'R' => seq![0x3Cu8, 0x22, 0x22, 0x3C, 0x24, 0x22, 0x42, 0x00],
        'S' => seq![0x3Cu8, 0x42, 0x40, 0x3C, 0x02, 0x42, 0x3C, 0x00],
        'T' => seq![0x7Eu8, 0x18, 0x18, 0x18, 0x18, 0x18, 0x18, 0x00],
        'U' => seq![0x42u8, 0x42, 0x42, 0x42, 0x42, 0x42, 0x3C, 0x00],
        'V' => seq![0x42u8, 0x42, 0x42, 0x42, 0x24, 0x24, 0x18, 0x00],
        'W' => seq![0x42u8, 0x42, 0x42, 0x42, 0x5A, 0x66, 0x42, 0x00],
        'X' => seq![0x42u8, 0x24, 0x18, 0x18, 0x24, 0x42, 0x42, 0x00],
        'Y' => seq![0x42u8, 0x42, 0x24, 0x18, 0x18, 0x18, 0x18, 0x00],
        'Z' => seq![0x7Eu8, 0x04, 0x08, 0x10, 0x20, 0x40, 0x7E, 0x00],
        '0' => seq![0x3Cu8, 0x46, 0x4A, 0x52, 0x62, 0x42, 0x3C, 0x00],
        '1' => seq![0x18u8, 0x28, 0x08, 0x08, 0x08, 0x08, 0x3E, 0x00],
        ' ' => seq![0u8, 0, 0, 0, 0, 0, 0, 0],
        ':' => seq![0x00u8, 0x18, 0x18, 0x00, 0x18, 0x18, 0x00, 0x00],
        '-' => seq![0x00u8, 0x00, 0x00, 0x3C, 0x00, 0x00, 0x00, 0x00],
        '>' => seq![0x00u8, 0x08, 0x04, 0x02, 0x04, 0x08, 0x00, 0x00],
        '(' => seq![0x08u8, 0x10, 0x20, 0x20, 0x20, 0x10, 0x08, 0x00],
        ')' => seq![0x20u8, 0x10, 0x08, 0x08, 0x08, 0x10, 0x20, 0x00],
        '.' => seq![0x00u8, 0x00, 0x00, 0x00, 0x00, 0x18, 0x18, 0x00],
        '!' => seq![0x18u8, 0x18, 0x18, 0x18, 0x00, 0x18, 0x18, 0x00],
        _ => seq![0xFFu8, 0xFF, 0xFF, 0xFF, 0xFF, 0xFF, 0xFF, 0xFF],
    }
}

/// Whether `c` has a glyph of its own in the font: the capital letters, the
/// digits 0 and 1, and the signs space : - > ( ) . and !.
pub open spec fn in_font(c: char) -> bool {
    ('A' <= c && c <= 'Z') || c == '0' || c == '1' || c == ' ' || c == ':' || c == '-' || c == '>'
        || c == '(' || c == ')' || c == '.' || c == '!'
}

/// The eight rows of a glyph read as one big-endian integer.
spec fn glyph_key(g: Seq<u8>) -> int {
    g[0] * 0x100000000000000 + g[1] * 0x1000000000000 + g[2] * 0x10000000000 + g[3] * 0x100000000
        + g[4] * 0x1000000 + g[5] * 0x10000 + g[6] * 0x100 + g[7]
}

/// The character of the font whose glyph has key `k`.
spec fn glyph_owner(k: int) -> char {
    if k == 0x182442427E424200 {
        'A'
    } else if k == 0x3C22223C22223C00 {
        'B'
    } else if k == 0x3C42404040423C00 {
        'C'
    } else if k == 0x3824222222243800 {
        'D'
    } else if k == 0x7E40407840407E00 {
        'E'
    } else if k == 0x7E40407840404000 {
        'F'
    } else if k == 0x3C42404E42423C00 {
        'G'
    } else if k == 0x4242427E42424200 {
        'H'
    } else if k == 0x3E08080808083E00 {
        'I'
    } else if k == 0x0E04040404443800 {
        'J'
    } else if k == 0x4448506050484400 {
        'K'
    } else if k == 0x4040404040407E00 {
        'L'
    } else if k == 0x42665A4242424200 {
        'M'
    } else if k == 0x4262524A46424200 {
        'N'
    } else if k == 0x3C42424242423C00 {
        'O'
    } else if k == 0x3C42423C40404000 {
        'P'
    } else if k == 0x3C4242424A443A00 {
        'Q'
    } else if k == 0x3C22223C24224200 {
        'R'
    } else if k == 0x3C42403C02423C00 {
        'S'
    } else if k == 0x7E18181818181800 {
        'T'
    } else if k == 0x4242424242423C00 {
        'U'
    } else if k == 0x4242424224241800 {
        'V'
    } else if k == 0x424242425A664200 {
        'W'
    } else if k == 0x4224181824424200 {
        'X'
    } else if k == 0x4242241818181800 {
        'Y'
    } else if k == 0x7E04081020407E00 {
        'Z'
    } else if k == 0x3C464A5262423C00 {
        '0'
    } else if k == 0x1828080808083E00 {
        '1'
    } else if k == 0x0000000000000000 {
        ' '
    } else if k == 0x0018180018180000 {
        ':'
    } else if k == 0x0000003C00000000 {
        '-'
    } else if k == 0x0008040204080000 {
        '>'
    } else if k == 0x0810202020100800 {
        '('
    } else if k == 0x2010080808102000 {
        ')'
    } else if k == 0x0000000000181800 {
        '.'
    } else if k == 0x1818181800181800 {
        '!'
    } else {
        '?'
    }
}

/// The font's glyphs: each character of the font has its own glyph, whose last
/// row is blank, and no two share one; every other character gets the solid
/// block, which no character of the font has.
pub proof fn lemma_font_glyphs(c: char, d: char)
    ensures
        char_bitmap(c).len() == 8,
        in_font(c) ==> char_bitmap(c)[7] == 0,
        !in_font(c) ==> char_bitmap(c) == Seq::new(8, |i: int| 0xFFu8),
        in_font(c) && in_font(d) && c != d ==> char_bitmap(c) != char_bitmap(d),
{
    if in_font(c) {
        assert(glyph_owner(glyph_key(char_bitmap(c))) == c);
    } else {
        assert(char_bitmap(c) =~= Seq::new(8, |i: int| 0xFFu8));
    }
    if in_font(d) {
        assert(glyph_owner(glyph_key(char_bitmap(d))) == d);
    }
}

/// The bitmap of `c` (see `char_bitmap`).
pub fn get_char_bitmap(c: char) -> (r: [u8; 8])
    ensures
        r@ == char_bitmap(c),
{
    let r: [u8; 8] = match c {
        'A' => [0x18, 0x24, 0x42, 0x42, 0x7E, 0x42, 0x42, 0x00],
        'B' => [0x3C, 0x22, 0x22, 0x3C, 0x22, 0x22, 0x3C, 0x00],
        'C' => [0x3C, 0x42, 0x40, 0x40, 0x40, 0x42, 0x3C, 0x00],
        'D' => [0x38, 0x24, 0x22, 0x22, 0x22, 0x24, 0x38, 0x00],
        'E' => [0x7E, 0x40, 0x40, 0x78, 0x40, 0x40, 0x7E, 0x00],
        'F' => [0x7E, 0x40, 0x40, 0x78, 0x40, 0x40, 0x40, 0x00],
        'G' => [0x3C, 0x42, 0x40, 0x4E, 0x42, 0x42, 0x3C, 0x00],
        'H' => [0x42, 0x42, 0x42, 0x7E, 0x42, 0x42, 0x42, 0x00],
        'I' => [0x3E, 0x08, 0x08, 0x08, 0x08, 0x08, 0x3E, 0x00],
        'J' => [0x0E, 0x04, 0x04, 0x04, 0x04, 0x44, 0x38, 0x00],
        'K' => [0x44, 0x48, 0x50, 0x60, 0x50, 0x48, 0x44, 0x00],
        'L' => [0x40, 0x40, 0x40, 0x40, 0x40, 0x40, 0x7E, 0x00],
        'M' => [0x42, 0x66, 0x5A, 0x42, 0x42, 0x42, 0x42, 0x00],
        'N' => [0x42, 0x62, 0x52, 0x4A, 0x46, 0x42, 0x42, 0x00],
        'O' => [0x3C, 0x42, 0x42, 0x42, 0x42, 0x42, 0x3C, 0x00],
        'P' => [0x3C, 0x42, 0x42, 0x3C, 0x40, 0x40, 0x40, 0x00],
        'Q' => [0x3C, 0x42, 0x42, 0x42, 0x4A, 0x44, 0x3A, 0x00],
        'R' => [0x3C, 0x22, 0x22, 0x3C, 0x24, 0x22, 0x42, 0x00],
        'S' => [0x3C, 0x42, 0x40, 0x3C, 0x02, 0x42, 0x3C, 0x00],
        'T' => [0x7E, 0x18, 0x18, 0x18, 0x18, 0x18, 0x18, 0x00],
        'U' => [0x42, 0x42, 0x42, 0x42, 0x42, 0x42, 0x3C, 0x00],
        'V' => [0x42, 0x42, 0x42, 0x42, 0x24, 0x24, 0x18, 0x00],
        'W' => [0x42, 0x42, 0x42, 0x42, 0x5A, 0x66, 0x42, 0x00],
        'X' => [0x42, 0x24, 0x18, 0x18, 0x24, 0x42, 0x42, 0x00],
        'Y' => [0x42, 0x42, 0x24, 0x18, 0x18, 0x18, 0x18, 0x00],
        'Z' => [0x7E, 0x04, 0x08, 0x10, 0x20, 0x40, 0x7E, 0x00],
        '0' => [0x3C, 0x46, 0x4A, 0x52, 0x62, 0x42, 0x3C, 0x00],
        '1' => [0x18, 0x28, 0x08, 0x08, 0x08, 0x08, 0x3E, 0x00],
        ' ' => [0x00; 8],
        ':' => [0x00, 0x18, 0x18, 0x00, 0x18, 0x18, 0x00, 0x00],
        '-' => [0x00, 0x00, 0x00, 0x3C, 0x00, 0x00, 0x00, 0x00],
        '>' => [0x00, 0x08, 0x04, 0x02, 0x04, 0x08, 0x00, 0x00],
        '(' => [0x08, 0x10, 0x20, 0x20, 0x20, 0x10, 0x08, 0x00],
        ')' => [0x20, 0x10, 0x08, 0x08, 0x08, 0x10, 0x20, 0x00],
        '.' => [0x00, 0x00, 0x00, 0x00, 0x00, 0x18, 0x18, 0x00],
        '!' => [0x18, 0x18, 0x18, 0x18, 0x00, 0x18, 0x18, 0x00],
        _ => [0xFF; 8],
    };
    assert(r@ =~= char_bitmap(c));
    r
}

/// The character a lowercase ASCII letter stands for in uppercase; every other
/// character is itself.
pub open spec fn ascii_upper(c: char) -> char {
    if 'a' <= c <= 'z' {
        ((c as u32) - 32) as char
    } else {
        c
    }
}

/// Uppercases an ASCII letter (see `ascii_upper`).
pub fn to_ascii_upper(c: char) -> (r: char)
    ensures
        r == ascii_upper(c),
{
    if 'a' <= c && c <= 'z' {
        let u = (c as u8) - 32;
        u as char
    } else {
        c
    }
}

/// Whether column `col` (0 = leftmost) of a glyph row `b` is lit.
pub open spec fn glyph_bit(b: u8, col: int) -> bool {
    b & (1u8 << ((7 - col) as u8)) != 0
}

/// Whether pixel (`px`, `py`) is lit by glyph `g` drawn at (`gx`, `gy`) with
/// each font cell `s` x `s` pixels.
pub open spec fn glyph_covers(g: Seq<u8>, gx: int, gy: int, s: int, px: int, py: int) -> bool {
    &&& gx <= px < gx + 8 * s
    &&& gy <= py < gy + 8 * s
    &&& glyph_bit(g[(py - gy) / s], (px - gx) / s)
}

/// Row-major pixels of width `width` after drawing glyph `g` at (`gx`, `gy`)
/// at scale `s` in `color`; unlit pixels keep their value.
pub open spec fn glyph_drawn(pixels: Seq<u32>, width: int, g: Seq<u8>, gx: int, gy: int, s: int, color: u32) -> Seq<u32> {
    Seq::new(
        pixels.len(),
        |i: int| if glyph_covers(g, gx, gy, s, i % width, i / width) { color } else { pixels[i] },
    )
}

proof fn lemma_cell(p: int, g: int, s: int, k: int)
    requires
        p >= g,
        s > 0,
        k >= 0,
    ensures
        ((p - g) / s == k) <==> (g + k * s <= p < g + k * s + s),
{
    let d = p - g;
    assert(d == s * (d / s) + d % s && 0 <= d % s < s) by (nonlinear_arith)
        requires
            s > 0,
    ;
    if d / s == k {
        assert(g + k * s <= p < g + k * s + s) by (nonlinear_arith)
            requires
                d == s * (d / s) + d % s,
                0 <= d % s < s,
                d / s == k,
                d == p - g,
        ;
    }
    if g + k * s <= p < g + k * s + s {
        vstd::arithmetic::div_mod::lemma_fundamental_div_mod_converse(d, s, k, d - k * s);
    }
}

proof fn lemma_cell_bound(p: int, g: int, s: int)
    requires
        g <= p < g + 8 * s,
        s > 0,
    ensures
        0 <= (p - g) / s < 8,
{
    assert(0 <= (p - g) / s < 8) by (nonlinear_arith)
        requires
            0 <= p - g < 8 * s,
            s > 0,
    ;
}

impl Canvas {
    /// Draws glyph `bitmap` with its top-left corner at (`gx`, `gy`), each lit
    /// font cell as a `scale` x `scale` square of `color`, clipped to the
    /// canvas (see `glyph_drawn`).
    pub fn draw_glyph(&mut self, gx: usize, gy: usize, bitmap: &[u8; 8], scale: usize, color: u32)
        requires
            old(self).wf(),
            gx + 8 * scale <= usize::MAX,
            gy + 8 * scale <= usize::MAX,
        ensures
            final(self).wf(),
            final(self).x == old(self).x && final(self).y == old(self).y,
            final(self).width == old(self).width && final(self).height == old(self).height,
            final(self).pixels@ == glyph_drawn(
                old(self).pixels@,
                old(self).width as int,
                bitmap@,
                gx as int,
                gy as int,
                scale as int,
                color,
            ),
    {
        let ghost p0 = self.pixels@;
        let ghost width = self.width as int;
        let ghost s = scale as int;
        let ghost g = bitmap@;
        let mut row: usize = 0;
        while row < 8
            invariant
                self.wf(),
                self.x == old(self).x && self.y == old(self).y,
                self.width == old(self).width && self.height == old(self).height,
                p0 == old(self).pixels@,
                width == self.width,
                s == scale,
                g == bitmap@,
                gx + 8 * scale <= usize::MAX,
                gy + 8 * scale <= usize::MAX,
                row <= 8,
                self.pixels@ == Seq::new(
                    p0.len(),
                    |i: int|
                        if glyph_covers(g, gx as int, gy as int, s, i % width, i / width) && (i / width
                            - gy) / s < row {
                            color
                        } else {
                            p0[i]
                        },
                ),
            decreases 8 - row,
        {
            let mut col: usize = 0;
            while col < 8
                invariant
                    self.wf(),
                    self.x == old(self).x && self.y == old(self).y,
                    self.width == old(self).width && self.height == old(self).height,
                    p0 == old(self).pixels@,
                    width == self.width,
                    s == scale,
                    g == bitmap@,
                    gx + 8 * scale <= usize::MAX,
                    gy + 8 * scale <= usize::MAX,
                    row < 8,
                    col <= 8,
                    self.pixels@ == Seq::new(
                        p0.len(),
                        |i: int|
                            if glyph_covers(g, gx as int, gy as int, s, i % width, i / width) && ((i
                                / width - gy) / s < row || ((i / width - gy) / s == row && (i % width
                                - gx) / s < col)) {
                                color
                            } else {
                                p0[i]
                            },
                    ),
                decreases 8 - col,
            {
                let ghost before = self.pixels@;
                proof {
                    assert(col * scale + scale <= 8 * scale && row * scale + scale <= 8 * scale)
                        by (nonlinear_arith)
                        requires
                            col < 8,
                            row < 8,
                    ;
                }
                if (bitmap[row] & (1u8 << ((7 - col) as u8))) != 0 {
                    self.fill_rect(gx + col * scale, gy + row * scale, scale, scale, color);
                }
                proof {
                    let next = Seq::new(
                        p0.len(),
                        |i: int|
                            if glyph_covers(g, gx as int, gy as int, s, i % width, i / width) && ((i
                                / width - gy) / s < row || ((i / width - gy) / s == row && (i % width
                                - gx) / s < col + 1)) {
                                color
                            } else {
                                p0[i]
                            },
                    );
                    assert forall|i: int| 0 <= i < p0.len() implies self.pixels@[i] == next[i] by {
                        let px = i % width;
                        let py = i / width;
                        if s > 0 && px >= gx && py >= gy {
                            lemma_cell(px, gx as int, s, col as int);
                            lemma_cell(py, gy as int, s, row as int);
                        }
                        if s > 0 && gx <= px < gx + 8 * s {
                            lemma_cell_bound(px, gx as int, s);
                        }
                        if s > 0 && gy <= py < gy + 8 * s {
                            lemma_cell_bound(py, gy as int, s);
                        }
                    }
                    assert(self.pixels@ =~= next);
                }
                col = col + 1;
            }
            proof {
                let next = Seq::new(
                    p0.len(),
                    |i: int|
                        if glyph_covers(g, gx as int, gy as int, s, i % width, i / width) && (i / width
                            - gy) / s < row + 1 {
                            color
                        } else {
                            p0[i]
                        },
                );
                assert forall|i: int| 0 <= i < p0.len() implies self.pixels@[i] == next[i] by {
                    let px = i % width;
                    let py = i / width;
                    if s > 0 && gx <= px < gx + 8 * s {
                        lemma_cell_bound(px, gx as int, s);
                    }
                }
                assert(self.pixels@ =~= next);
            }
            row = row + 1;
        }
        proof {
            assert forall|i: int| 0 <= i < p0.len() implies self.pixels@[i] == glyph_drawn(
                p0,
                width,
                g,
                gx as int,
                gy as int,
                s,
                color,
            )[i] by {
                let py = i / width;
                if s > 0 && gy <= py < gy + 8 * s {
                    lemma_cell_bound(py, gy as int, s);
                }
            }
            assert(self.pixels@ =~= glyph_drawn(p0, width, g, gx as int, gy as int, s, color));
        }
    }
}


/// Background colour of the terminal canvas (white).
pub const TERM_BG: u32 = 0xFFFFFF;

/// Line height and character advance of the terminal, in pixels.
pub const TERM_STEP: usize = 30;

/// The terminal's state after a line break from row `y`: the cursor moves down
/// one line; when that line would not fit, the canvas scrolls up one line
/// instead and the cursor stays.
pub open spec fn term_newline(p: Seq<u32>, width: int, height: int, y: int) -> (Seq<u32>, int) {
    let y1 = y + 30;
    if y1 + 30 > height {
        (scrolled(p, 30 * width, TERM_BG), y1 - 30)
    } else {
        (p, y1)
    }
}

/// The terminal's state (pixels, cursor x, cursor y) after printing one
/// character: a newline breaks the line; any other character is drawn
/// uppercased at scale 3, the cursor advances 30 pixels, and the line breaks
/// when the cursor passes 40 pixels before the right edge.
pub open spec fn term_step(st: (Seq<u32>, int, int), width: int, height: int, c: char, color: u32) -> (Seq<u32>, int, int) {
    let (p, x, y) = st;
    if c == '\n' {
        let (p2, y2) = term_newline(p, width, height, y);
        (p2, 20, y2)
    } else {
        let p1 = glyph_drawn(p, width, char_bitmap(ascii_upper(c)), x, y, 3, color);
        let x1 = x + 30;
        if x1 > width - 40 {
            let (p2, y2) = term_newline(p1, width, height, y);
            (p2, 20, y2)
        } else {
            (p1, x1, y)
        }
    }
}

/// The terminal's state after printing `text` character by character.
pub open spec fn term_print(st: (Seq<u32>, int, int), width: int, height: int, text: Seq<char>, color: u32) -> (Seq<u32>, int, int)
    decreases text.len(),
{
    if text.len() == 0 {
        st
    } else {
        term_step(term_print(st, width, height, text.drop_last(), color), width, height, text.last(), color)
    }
}

/// Printing `a` then `b` leaves the terminal as printing `a + b` does.
pub proof fn lemma_print_concat(st: (Seq<u32>, int, int), width: int, height: int, a: Seq<char>, b: Seq<char>, color: u32)
    ensures
        term_print(term_print(st, width, height, a, color), width, height, b, color) == term_print(
            st,
            width,
            height,
            a + b,
            color,
        ),
    decreases b.len(),
{
    if b.len() == 0 {
        assert(a + b =~= a);
    } else {
        lemma_print_concat(st, width, height, a, b.drop_last(), color);
        assert((a + b).drop_last() =~= a + b.drop_last());
        assert((a + b).last() == b.last());
    }
}

/// Whether a cursor at (`x`, `y`) leaves room for a line on a canvas of the
/// given size: its line ends above the bottom edge, and it is either at the
/// start of a line or at most 40 pixels before the right edge.
pub open spec fn cursor_in_canvas(x: int, y: int, width: int, height: int) -> bool {
    y + 30 <= height && (x == 20 || x <= width - 40)
}

/// Printing keeps the cursor in the canvas: if it starts with room for a line,
/// it ends with room for a line, whatever the text.
pub proof fn lemma_print_keeps_cursor(st: (Seq<u32>, int, int), width: int, height: int, text: Seq<char>, color: u32)
    requires
        cursor_in_canvas(st.1, st.2, width, height),
    ensures
        cursor_in_canvas(
            term_print(st, width, height, text, color).1,
            term_print(st, width, height, text, color).2,
            width,
            height,
        ),
    decreases text.len(),
{
    if text.len() > 0 {
        lemma_print_keeps_cursor(st, width, height, text.drop_last(), color);
    }
}

/// The text cursor of the terminal canvas.
#[derive(Clone, Copy, Debug)]
pub struct Terminal {
    pub x: usize,
    pub y: usize,
}

/// The largest of two integers.
pub open spec fn max(a: int, b: int) -> int {
    if a >= b { a } else { b }
}

impl Terminal {
    /// Whether the cursor lies inside a canvas of the given size: at most 40
    /// pixels before the right edge and one line above the bottom, or at the
    /// home position when the canvas is smaller than that.
    pub open spec fn fits(&self, width: int, height: int) -> bool {
        self.x <= max(20, width - 40) && self.y <= max(20, height - 30)
    }

    /// The cursor at its home position (20, 20).
    pub fn new() -> (r: Self)
        ensures
            r.x == 20 && r.y == 20,
    {
        Terminal { x: 20, y: 20 }
    }

    fn newline(&mut self, canvas: &mut Canvas)
        requires
            old(canvas).wf(),
            old(canvas).width + 64 <= usize::MAX,
            old(canvas).height + 64 <= usize::MAX,
            30 * old(canvas).width <= usize::MAX,
            old(self).y <= max(20, old(canvas).height - 30),
        ensures
            final(canvas).wf(),
            final(canvas).x == old(canvas).x && final(canvas).y == old(canvas).y,
            final(canvas).width == old(canvas).width && final(canvas).height == old(canvas).height,
            (final(canvas).pixels@, final(self).y as int) == term_newline(
                old(canvas).pixels@,
                old(canvas).width as int,
                old(canvas).height as int,
                old(self).y as int,
            ),
            final(self).x == 20,
            final(self).fits(old(canvas).width as int, old(canvas).height as int),
    {
        self.x = 20;
        self.y = self.y + 30;
        if self.y + 30 > canvas.height {
            canvas.scroll_up(30, TERM_BG);
            self.y = self.y - 30;
        }
    }

    /// Prints `text` into the terminal canvas in `color`, scrolling as lines
    /// fill up (see `term_print`).
    pub fn terminal_print(&mut self, canvas: &mut Canvas, text: &str, color: u32)
        requires
            old(canvas).wf(),
            (exists|i: int| 0 <= i < text@.len() && #[trigger] text@[i] != '\n') ==> old(canvas).width >= 40,
            old(canvas).width + 64 <= usize::MAX,
            old(canvas).height + 64 <= usize::MAX,
            30 * old(canvas).width <= usize::MAX,
            old(self).fits(old(canvas).width as int, old(canvas).height as int),
        ensures
            final(canvas).wf(),
            final(canvas).x == old(canvas).x && final(canvas).y == old(canvas).y,
            final(canvas).width == old(canvas).width && final(canvas).height == old(canvas).height,
            final(self).fits(old(canvas).width as int, old(canvas).height as int),
            (final(canvas).pixels@, final(self).x as int, final(self).y as int) == term_print(
                (old(canvas).pixels@, old(self).x as int, old(self).y as int),
                old(canvas).width as int,
                old(canvas).height as int,
                text@,
                color,
            ),
    {
        let n = text.unicode_len();
        let ghost st0 = (old(canvas).pixels@, old(self).x as int, old(self).y as int);
        let ghost w = canvas.width as int;
        let ghost h = canvas.height as int;
        let mut k: usize = 0;
        while k < n
            invariant
                n == text@.len(),
                k <= n,
                canvas.wf(),
                canvas.x == old(canvas).x && canvas.y == old(canvas).y,
                canvas.width == old(canvas).width && canvas.height == old(canvas).height,
                w == canvas.width,
                h == canvas.height,
                (exists|i: int| 0 <= i < text@.len() && #[trigger] text@[i] != '\n') ==> canvas.width >= 40,
                canvas.width + 64 <= usize::MAX,
                canvas.height + 64 <= usize::MAX,
                30 * canvas.width <= usize::MAX,
                self.fits(w, h),
                (canvas.pixels@, self.x as int, self.y as int) == term_print(
                    st0,
                    w,
                    h,
                    text@.take(k as int),
                    color,
                ),
            decreases n - k,
        {
            let c = text.get_char(k);
            proof {
                assert(text@.take(k + 1).drop_last() =~= text@.take(k as int));
                assert(text@.take(k + 1).last() == c);
            }
            if c == '\n' {
                self.newline(canvas);
            } else {
                let bitmap = get_char_bitmap(to_ascii_upper(c));
                canvas.draw_glyph(self.x, self.y, &bitmap, 3, color);
                self.x = self.x + 30;
                if self.x > canvas.width - 40 {
                    self.newline(canvas);
                }
            }
            k = k + 1;
        }
        assert(text@.take(n as int) =~= text@);
    }
}


/// A rectangle of the screen.
#[derive(Clone, Copy, Debug, PartialEq, Eq)]
pub struct Rect {
    pub x: usize,
    pub y: usize,
    pub w: usize,
    pub h: usize,
}

/// The lit font cells of glyph `g` at (`gx`, `gy`) at scale `s` among the
/// first `k` cells (row-major), as `s` x `s` squares.
pub open spec fn glyph_cells(g: Seq<u8>, gx: int, gy: int, s: int, k: int) -> Seq<Rect>
    decreases k,
{
    if k <= 0 {
        Seq::empty()
    } else {
        let row = (k - 1) / 8;
        let col = (k - 1) % 8;
        glyph_cells(g, gx, gy, s, k - 1) + if glyph_bit(g[row], col) {
            seq![Rect { x: (gx + col * s) as usize, y: (gy + row * s) as usize, w: s as usize, h: s as usize }]
        } else {
            Seq::empty()
        }
    }
}

/// The squares that draw `text` from (`x`, `y`) at scale `scale`: each
/// character uppercased, 10 font columns apart.
pub open spec fn text_cells(x: int, y: int, text: Seq<char>, scale: int) -> Seq<Rect>
    decreases text.len(),
{
    if text.len() == 0 {
        Seq::empty()
    } else {
        let i = text.len() - 1;
        text_cells(x, y, text.drop_last(), scale) + glyph_cells(
            char_bitmap(ascii_upper(text[i])),
            x + i * 10 * scale,
            y,
            scale,
            64,
        )
    }
}

/// A contiguous run of `count` framebuffer pixels starting at `address`.
#[derive(Clone, Copy, Debug, PartialEq, Eq)]
pub struct Span {
    pub address: u64,
    pub count: usize,
}

/// The screen: the framebuffer's geometry and the terminal canvas.
#[derive(Debug)]
pub struct Compositor {
    pub framebuffer: u64,
    pub width: usize,
    pub height: usize,
    pub stride: usize,
    pub terminal_layer: Option<Canvas>,
}

/// The framebuffer address of pixel (`x`, `y`): 4 bytes per pixel, `stride`
/// pixels per row.
pub open spec fn pixel_addr(framebuffer: u64, stride: int, x: int, y: int) -> int {
    framebuffer + (y * stride + x) * 4
}

/// Whether every on-screen pixel's address fits in 64 bits.
pub open spec fn addressable(c: &Compositor) -> bool {
    &&& c.framebuffer + (c.height * c.stride + c.width) * 4 <= u64::MAX
    &&& c.height * c.stride + c.width <= usize::MAX
}

impl Compositor {
    /// A screen of size zero with no terminal canvas.
    pub fn new() -> (r: Self)
        ensures
            r.framebuffer == 0 && r.width == 0 && r.height == 0 && r.stride == 0,
            r.terminal_layer is None,
    {
        Compositor { framebuffer: 0, width: 0, height: 0, stride: 0, terminal_layer: None }
    }

    /// Takes the framebuffer geometry from the boot information and creates
    /// the terminal canvas: white, full width, below the 40-pixel top bar.
    pub fn init(&mut self, boot_info: &BootInfo)
        requires
            boot_info.height >= 40,
            boot_info.width * (boot_info.height - 40) <= usize::MAX,
        ensures
            final(self).framebuffer == boot_info.framebuffer_base,
            final(self).width == boot_info.width,
            final(self).height == boot_info.height,
            final(self).stride == boot_info.stride,
            final(self).terminal_layer matches Some(c) && c.wf() && c.x == 0 && c.y == 40 && c.width
                == boot_info.width && c.height == boot_info.height - 40 && c.pixels@ == Seq::new(
                (boot_info.width * (boot_info.height - 40)) as nat,
                |i: int| TERM_BG,
            ),
    {
        self.framebuffer = boot_info.framebuffer_base;
        self.width = boot_info.width;
        self.height = boot_info.height;
        self.stride = boot_info.stride;
        self.terminal_layer = Some(Canvas::new(0, 40, self.width, self.height - 40, TERM_BG));
    }

    /// The framebuffer address of pixel (`x`, `y`), or `None` when the pixel
    /// is off screen.
    pub fn pixel_address(&self, x: usize, y: usize) -> (r: Option<u64>)
        requires
            addressable(self),
        ensures
            match r {
                Some(a) => x < self.width && y < self.height && a == pixel_addr(
                    self.framebuffer,
                    self.stride as int,
                    x as int,
                    y as int,
                ),
                None => x >= self.width || y >= self.height,
            },
    {
        if x >= self.width || y >= self.height {
            return None;
        }
        proof {
            assert(y * self.stride + x <= self.height * self.stride + self.width) by (nonlinear_arith)
                requires
                    x < self.width,
                    y < self.height,
            ;
        }
        let offset = (y * self.stride) + x;
        Some(self.framebuffer + (offset as u64 * 4))
    }

    /// The on-screen part of the rectangle at (`x`, `y`) of size `w` x `h`, as
    /// one run of framebuffer pixels per visible row, top to bottom.
    pub fn fill_spans(&self, x: usize, y: usize, w: usize, h: usize) -> (r: Vec<Span>)
        requires
            addressable(self),
            x + w <= usize::MAX,
            y + h <= usize::MAX,
        ensures
            x >= self.width || w == 0 ==> r@.len() == 0,
            x < self.width && w > 0 ==> {
                let rows = if y + h <= self.height { h as int } else if y < self.height { self.height - y } else { 0 };
                let count = if x + w <= self.width { w as int } else { self.width - x };
                &&& r@.len() == rows
                &&& forall|k: int|
                    0 <= k < rows ==> r@[k] == (Span {
                        address: pixel_addr(self.framebuffer, self.stride as int, x as int, y + k) as u64,
                        count: count as usize,
                    })
            },
    {
        let mut spans: Vec<Span> = Vec::new();
        if x >= self.width || w == 0 {
            return spans;
        }
        let count = if x + w <= self.width { w } else { self.width - x };
        let mut cy = y;
        while cy < y + h && cy < self.height
            invariant
                addressable(self),
                x < self.width,
                y <= cy <= y + h,
                y + h <= usize::MAX,
                cy <= self.height || cy == y,
                count == if x + w <= self.width { w as int } else { self.width - x },
                spans@.len() == cy - y,
                forall|k: int|
                    0 <= k < cy - y ==> spans@[k] == (Span {
                        address: pixel_addr(self.framebuffer, self.stride as int, x as int, y + k) as u64,
                        count,
                    }),
            decreases y + h - cy,
        {
            let a = self.pixel_address(x, cy);
            match a {
                Some(addr) => spans.push(Span { address: addr, count }),
                None => {},
            }
            cy = cy + 1;
        }
        spans
    }

    /// The copies that put `canvas` on screen: for each canvas row that lands
    /// above the screen's bottom edge, the canvas pixel index of the row and
    /// the framebuffer address it goes to, `canvas.width` pixels long.
    pub fn blit_canvas(&self, canvas: &Canvas) -> (r: Vec<(usize, u64)>)
        requires
            canvas.wf(),
            self.framebuffer + ((canvas.y + canvas.height) * self.stride + canvas.x) * 4 <= u64::MAX,
            (canvas.y + canvas.height) * self.stride + canvas.x <= usize::MAX,
            canvas.y + canvas.height <= usize::MAX,
        ensures
            r@.len() == if canvas.y + canvas.height <= self.height {
                canvas.height as int
            } else if canvas.y < self.height {
                self.height - canvas.y
            } else {
                0
            },
            forall|cy: int|
                0 <= cy < r@.len() ==> #[trigger] r@[cy] == (
                    (cy * canvas.width) as usize,
                    pixel_addr(self.framebuffer, self.stride as int, canvas.x as int, canvas.y + cy) as u64,
                ),
    {
        let mut rows: Vec<(usize, u64)> = Vec::new();
        let _n = canvas.pixels.len();
        let visible = if canvas.y + canvas.height <= self.height {
            canvas.height
        } else if canvas.y < self.height {
            self.height - canvas.y
        } else {
            0
        };
        let mut cy: usize = 0;
        while cy < visible
            invariant
                canvas.wf(),
                canvas.width * canvas.height <= usize::MAX,
                self.framebuffer + ((canvas.y + canvas.height) * self.stride + canvas.x) * 4 <= u64::MAX,
                (canvas.y + canvas.height) * self.stride + canvas.x <= usize::MAX,
                canvas.y + canvas.height <= usize::MAX,
                visible <= canvas.height,
                visible == if canvas.y + canvas.height <= self.height {
                    canvas.height as int
                } else if canvas.y < self.height {
                    self.height - canvas.y
                } else {
                    0
                },
                cy <= visible,
                rows@.len() == cy,
                forall|k: int|
                    0 <= k < cy ==> #[trigger] rows@[k] == (
                        (k * canvas.width) as usize,
                        pixel_addr(self.framebuffer, self.stride as int, canvas.x as int, canvas.y + k) as u64,
                    ),
            decreases visible - cy,
        {
            let screen_y = canvas.y + cy;
            proof {
                assert(cy * canvas.width <= canvas.width * canvas.height) by (nonlinear_arith)
                    requires
                        cy < canvas.height,
                ;
                assert(screen_y * self.stride + canvas.x <= (canvas.y + canvas.height) * self.stride + canvas.x)
                    by (nonlinear_arith)
                    requires
                        screen_y < canvas.y + canvas.height,
                ;
            }
            let src_offset = cy * canvas.width;
            let dst_offset = (screen_y * self.stride) + canvas.x;
            rows.push((src_offset, self.framebuffer + dst_offset as u64 * 4));
            cy = cy + 1;
        }
        rows
    }
}


fn push_glyph_cells(out: &mut Vec<Rect>, gx: usize, gy: usize, bitmap: &[u8; 8], scale: usize)
    requires
        gx + 8 * scale <= usize::MAX,
        gy + 8 * scale <= usize::MAX,
    ensures
        final(out)@ == old(out)@ + glyph_cells(bitmap@, gx as int, gy as int, scale as int, 64),
{
    let mut k: usize = 0;
    while k < 64
        invariant
            k <= 64,
            gx + 8 * scale <= usize::MAX,
            gy + 8 * scale <= usize::MAX,
            out@ == old(out)@ + glyph_cells(bitmap@, gx as int, gy as int, scale as int, k as int),
        decreases 64 - k,
    {
        let row = k / 8;
        let col = k % 8;
        proof {
            assert(col * scale <= 8 * scale && row * scale <= 8 * scale) by (nonlinear_arith)
                requires
                    col < 8,
                    row < 8,
            ;
        }
        if (bitmap[row] & (1u8 << ((7 - col) as u8))) != 0 {
            out.push(Rect { x: gx + col * scale, y: gy + row * scale, w: scale, h: scale });
        }
        k = k + 1;
        assert(out@ =~= old(out)@ + glyph_cells(bitmap@, gx as int, gy as int, scale as int, k as int));
    }
}

/// The squares that draw `text` on screen from (`x`, `y`) at scale `scale`
/// (see `text_cells`); the caller fills each with the text colour.
pub fn draw_string(x: usize, y: usize, text: &str, scale: usize) -> (r: Vec<Rect>)
    requires
        x + text@.len() * 10 * scale + 8 * scale <= usize::MAX,
        y + 8 * scale <= usize::MAX,
    ensures
        r@ == text_cells(x as int, y as int, text@, scale as int),
{
    let n = text.unicode_len();
    let mut out: Vec<Rect> = Vec::new();
    let mut cx = x;
    let mut i: usize = 0;
    while i < n
        invariant
            n == text@.len(),
            i <= n,
            x + n * 10 * scale + 8 * scale <= usize::MAX,
            y + 8 * scale <= usize::MAX,
            cx == x + i * 10 * scale,
            out@ == text_cells(x as int, y as int, text@.take(i as int), scale as int),
        decreases n - i,
    {
        let c = text.get_char(i);
        let bitmap = get_char_bitmap(to_ascii_upper(c));
        proof {
            assert(cx + 8 * scale <= x + n * 10 * scale + 8 * scale) by (nonlinear_arith)
                requires
                    cx == x + i * 10 * scale,
                    i < n,
            ;
            assert(cx + 10 * scale <= x + n * 10 * scale) by (nonlinear_arith)
                requires
                    cx == x + i * 10 * scale,
                    i < n,
            ;
            assert(text@.take(i + 1).drop_last() =~= text@.take(i as int));
            assert(text@.take(i + 1)[i as int] == c);
        }
        push_glyph_cells(&mut out, cx, y, &bitmap, scale);
        cx = cx + 8 * scale + 2 * scale;
        proof {
            assert(cx == x + (i + 1) * 10 * scale) by (nonlinear_arith)
                requires
                    cx == x + i * 10 * scale + 8 * scale + 2 * scale,
            ;
        }
        i = i + 1;
    }
    assert(text@.take(n as int) =~= text@);
    out
}

} // verus!
