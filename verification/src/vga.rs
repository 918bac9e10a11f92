//! The early-boot text writer: renders Basic Latin text with the `font8x8`
//! glyphs straight into the 32-bit framebuffer, one write per pixel.
use vstd::prelude::*;
use vstd::string::StringSliceAdditionalSpecFns;
use crate::boot::BootInfo;
use font8x8::UnicodeFonts;

verus! {

/// The glyph `font8x8::BASIC_FONTS` holds for a character: eight rows, least
/// significant bit leftmost.
pub uninterp spec fn basic_font_glyph(c: char) -> Option<Seq<u8>>;

/// The glyph of `c` from the Basic Latin font.
///
/// Trusted: calls `font8x8::BASIC_FONTS.get`. Its source holds exactly the 128
/// glyphs U+0000..U+007F and finds them by binary search, so a glyph comes
/// back exactly for those characters; the glyph bytes are named by
/// `basic_font_glyph`, not stated.
#[verifier::external_body]
fn basic_glyph(c: char) -> (r: Option<[u8; 8]>)
    ensures
        match r {
            Some(g) => basic_font_glyph(c) == Some(g@),
            None => basic_font_glyph(c) is None,
        },
        r is Some <==> (c as u32) < 128,
{
    font8x8::BASIC_FONTS.get(c)
}

/// One framebuffer pixel the writer sets: the byte at `offset` and the next two
/// take `value` (blue, green, red) and the fourth byte takes 0.
#[derive(Clone, Copy, Debug, PartialEq, Eq)]
pub struct PixelWrite {
    pub offset: usize,
    pub value: u8,
}

/// The byte offset of pixel (`x`, `y`): 4 bytes per pixel, `stride` pixels
/// per row.
pub open spec fn pixel_offset(x: int, y: int, stride: int) -> int {
    y * stride * 4 + x * 4
}

/// The 64 pixel writes that draw glyph `g` with its top-left at (`x0`, `y0`):
/// row by row, each row left to right, lit pixels white and the others
/// black.
pub open spec fn glyph_writes(g: Seq<u8>, x0: int, y0: int, stride: int) -> Seq<PixelWrite> {
    Seq::new(
        64,
        |k: int|
            PixelWrite {
                offset: pixel_offset(x0 + k % 8, y0 + k / 8, stride) as usize,
                value: if g[k / 8] & (1u8 << ((k % 8) as u8)) != 0 { 0xFFu8 } else { 0u8 },
            },
    )
}

/// The writer's state (writes so far, x, y) after one byte of text: a newline
/// moves to the start of the next line (10 pixels down); any other byte is
/// shown as the character of that code, first breaking the line when fewer
/// than 9 pixels of the row remain, drawn when the font has it, and always
/// advancing 8 pixels.
pub open spec fn vga_step(st: (Seq<PixelWrite>, int, int), b: u8, width: int, stride: int) -> (Seq<PixelWrite>, int, int) {
    let (w, x, y) = st;
    if b == 10 {
        (w, 10, y + 10)
    } else {
        let x1 = if x + 8 >= width { 10 } else { x };
        let y1 = if x + 8 >= width { y + 10 } else { y };
        let w1 = match basic_font_glyph((b as u32) as char) {
            Some(g) => w + glyph_writes(g, x1, y1, stride),
            None => w,
        };
        (w1, x1 + 8, y1)
    }
}

/// The writer's state after writing `bytes`.
pub open spec fn vga_print(st: (Seq<PixelWrite>, int, int), bytes: Seq<u8>, width: int, stride: int) -> (Seq<PixelWrite>, int, int)
    decreases bytes.len(),
{
    if bytes.len() == 0 {
        st
    } else {
        vga_step(vga_print(st, bytes.drop_last(), width, stride), bytes.last(), width, stride)
    }
}

/// The larger of two integers.
pub open spec fn imax(a: int, b: int) -> int {
    if a >= b { a } else { b }
}

/// The framebuffer text writer.
pub struct VgaWriter {
    framebuffer: u64,
    width: usize,
    height: usize,
    stride: usize,
    x_pos: usize,
    y_pos: usize,
}

impl VgaWriter {
    /// The framebuffer's address.
    pub closed spec fn fb(&self) -> u64 {
        self.framebuffer
    }

    /// The screen width in pixels.
    pub closed spec fn screen_width(&self) -> int {
        self.width as int
    }

    /// The screen height in pixels.
    pub closed spec fn screen_height(&self) -> int {
        self.height as int
    }

    /// Pixels per framebuffer row.
    pub closed spec fn row_stride(&self) -> int {
        self.stride as int
    }

    /// The cursor column.
    pub closed spec fn x(&self) -> int {
        self.x_pos as int
    }

    /// The cursor row.
    pub closed spec fn y(&self) -> int {
        self.y_pos as int
    }

    /// A writer for the framebuffer the boot information describes, its
    /// cursor at (10, 10).
    pub fn new(info: &BootInfo) -> (r: Self)
        ensures
            r.fb() == info.framebuffer_base,
            r.screen_width() == info.width,
            r.screen_height() == info.height,
            r.row_stride() == info.stride,
            r.x() == 10 && r.y() == 10,
    {
        VgaWriter {
            framebuffer: info.framebuffer_base,
            width: info.width,
            height: info.height,
            stride: info.stride,
            x_pos: 10,
            y_pos: 10,
        }
    }

    /// The framebuffer address of a pixel write.
    pub fn write_address(&self, w: PixelWrite) -> (r: u64)
        requires
            self.fb() + w.offset + 3 <= u64::MAX,
        ensures
            r == self.fb() + w.offset,
    {
        self.framebuffer + w.offset as u64
    }

    fn newline(&mut self)
        requires
            old(self).y() + 10 <= usize::MAX,
        ensures
            final(self).x() == 10,
            final(self).y() == old(self).y() + 10,
            final(self).fb() == old(self).fb() && final(self).screen_width() == old(self).screen_width(),
            final(self).screen_height() == old(self).screen_height(),
            final(self).row_stride() == old(self).row_stride(),
    {
        self.y_pos = self.y_pos + 10;
        self.x_pos = 10;
    }

    /// Whether every pixel offset that writing `text_len` bytes can reach fits
    /// in a `usize` (the condition `write_string` needs).
    pub open spec fn fits_text(&self, text_len: int) -> bool {
        &&& self.x() <= imax(self.screen_width(), 18)
        &&& self.y() + 10 * text_len + 8 <= usize::MAX
        &&& (self.y() + 10 * text_len + 8) * self.row_stride() * 4 + (imax(self.screen_width(), 18) + 8) * 4
            <= usize::MAX
    }

    /// Checks `fits_text` for a text of `s`'s length.
    pub fn can_write(&self, s: &str) -> (r: bool)
        ensures
            r == self.fits_text(s.spec_bytes().len() as int),
    {
        let n = s.as_bytes().len();
        let xm: usize = if self.width >= 18 { self.width } else { 18 };
        if self.x_pos > xm {
            return false;
        }
        let lines = match n.checked_mul(10) {
            Some(v) => v,
            None => return false,
        };
        let ymax = match lines.checked_add(self.y_pos) {
            Some(v) => match v.checked_add(8) {
                Some(u) => u,
                None => return false,
            },
            None => return false,
        };
        let rows = match ymax.checked_mul(self.stride) {
            Some(v) => match v.checked_mul(4) {
                Some(u) => u,
                None => {
                    proof {
                        assert(ymax * self.stride * 4 + (xm + 8) * 4 > usize::MAX) by (nonlinear_arith)
                            requires
                                ymax * self.stride * 4 > usize::MAX,
                                xm >= 0,
                        ;
                    }
                    return false;
                },
            },
            None => {
                proof {
                    assert(ymax * self.stride * 4 + (xm + 8) * 4 > usize::MAX) by (nonlinear_arith)
                        requires
                            ymax * self.stride > usize::MAX,
                            xm >= 0,
                    ;
                }
                return false;
            },
        };
        let cols = match xm.checked_add(8) {
            Some(v) => match v.checked_mul(4) {
                Some(u) => u,
                None => return false,
            },
            None => return false,
        };
        rows.checked_add(cols).is_some()
    }

    /// Writes `s` byte by byte (see `vga_print`) and returns the pixel
    /// writes that draw it, in order.
    pub fn write_string(&mut self, s: &str) -> (r: Vec<PixelWrite>)
        requires
            old(self).fits_text(s.spec_bytes().len() as int),
        ensures
            final(self).fb() == old(self).fb() && final(self).screen_width() == old(self).screen_width(),
            final(self).screen_height() == old(self).screen_height(),
            final(self).row_stride() == old(self).row_stride(),
            final(self).x() <= imax(final(self).screen_width(), 18),
            (r@, final(self).x(), final(self).y()) == vga_print(
                (Seq::empty(), old(self).x(), old(self).y()),
                s.spec_bytes(),
                old(self).screen_width(),
                old(self).row_stride(),
            ),
    {
        let bytes = s.as_bytes();
        let n = bytes.len();
        let ghost w = self.width as int;
        let ghost st = self.stride as int;
        let ghost ymax = self.y_pos + 10 * n + 8;
        let ghost xmax = imax(w, 18);
        let mut out: Vec<PixelWrite> = Vec::new();
        let mut k: usize = 0;
        while k < n
            invariant
                bytes@ == s.spec_bytes(),
                n == bytes@.len(),
                k <= n,
                self.fb() == old(self).fb() && self.screen_width() == old(self).screen_width(),
                self.screen_height() == old(self).screen_height(),
                self.row_stride() == old(self).row_stride(),
                w == self.width,
                st == self.stride,
                xmax == imax(w, 18),
                ymax == old(self).y() + 10 * n + 8,
                ymax <= usize::MAX,
                self.x() <= xmax,
                self.y() + 10 * (n - k) + 8 <= ymax,
                ymax * st * 4 + (xmax + 8) * 4 <= usize::MAX,
                (out@, self.x(), self.y()) == vga_print(
                    (Seq::empty(), old(self).x(), old(self).y()),
                    bytes@.take(k as int),
                    w,
                    st,
                ),
            decreases n - k,
        {
            let b = bytes[k];
            proof {
                assert(bytes@.take(k + 1).drop_last() =~= bytes@.take(k as int));
                assert(bytes@.take(k + 1).last() == b);
                assert(ymax * st * 4 <= usize::MAX) by (nonlinear_arith)
                    requires
                        ymax * st * 4 + (xmax + 8) * 4 <= usize::MAX,
                        xmax >= 0,
                ;
            }
            if b == 10 {
                self.newline();
            } else {
                if self.x_pos + 8 >= self.width {
                    self.newline();
                }
                let c = b as char;
                let glyph = basic_glyph(c);
                match glyph {
                    Some(g) => {
                        proof {
                            assert((self.y() + 8) * st * 4 <= ymax * st * 4) by (nonlinear_arith)
                                requires
                                    self.y() + 8 <= ymax,
                                    st >= 0,
                            ;
                        }
                        push_glyph_writes(&mut out, &g, self.x_pos, self.y_pos, self.stride);
                    },
                    None => {},
                }
                self.x_pos = self.x_pos + 8;
            }
            k = k + 1;
        }
        assert(bytes@.take(n as int) =~= bytes@);
        out
    }
}

/// Appends the 64 pixel writes that draw `glyph` with its top-left corner at
/// (`x`, `y`) on a framebuffer of `stride` pixels per row (see
/// `glyph_writes`).
pub fn push_glyph_writes(out: &mut Vec<PixelWrite>, glyph: &[u8; 8], x: usize, y: usize, stride: usize)
    requires
        y + 8 <= usize::MAX,
        (y + 8) * stride * 4 + (x + 8) * 4 <= usize::MAX,
    ensures
        final(out)@ == old(out)@ + glyph_writes(glyph@, x as int, y as int, stride as int),
{
    let mut k: usize = 0;
    while k < 64
        invariant
            k <= 64,
            y + 8 <= usize::MAX,
            (y + 8) * stride * 4 + (x + 8) * 4 <= usize::MAX,
            out@ == old(out)@ + glyph_writes(glyph@, x as int, y as int, stride as int).take(k as int),
        decreases 64 - k,
    {
        let row = k / 8;
        let col = k % 8;
        let px = x + col;
        let py = y + row;
        proof {
            assert(py * stride * 4 <= (y + 8) * stride * 4) by (nonlinear_arith)
                requires
                    py <= y + 8,
            ;
            assert(py * stride <= py * stride * 4) by (nonlinear_arith);
        }
        let offset = (py * stride * 4) + (px * 4);
        let value: u8 = if (glyph[row] & (1u8 << (col as u8))) != 0 { 0xFF } else { 0x00 };
        out.push(PixelWrite { offset, value });
        k = k + 1;
        assert(out@ =~= old(out)@ + glyph_writes(glyph@, x as int, y as int, stride as int).take(k as int));
    }
    assert(glyph_writes(glyph@, x as int, y as int, stride as int).take(64) =~= glyph_writes(
        glyph@,
        x as int,
        y as int,
        stride as int,
    ));
}

} // verus!
