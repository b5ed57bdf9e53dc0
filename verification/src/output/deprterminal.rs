use vstd::prelude::*;
use font8x8::UnicodeFonts;

verus! {

/// Additional vertical space between lines.
pub const LINE_SPACING: usize = 0;

/// Height and width in pixels of one rendered character.
pub const GLYPH_SIZE: usize = 8;

/// The glyph that font8x8's basic-Latin table holds for `c`.
pub uninterp spec fn basic_font_glyph(c: char) -> Option<[u8; 8]>;

/// Looks `c` up in `font8x8::BASIC_FONTS` (`UnicodeFonts::get`). The table holds
/// one glyph for each of U+0000..=U+007F, sorted by code point, and `get` does a
/// binary search over it: the result is `Some` exactly for those characters.
/// The glyph bytes themselves are the table's, named by `basic_font_glyph`.
#[verifier::external_body]
fn basic_glyph(c: char) -> (r: Option<[u8; 8]>)
    ensures
        r == basic_font_glyph(c),
        r is Some <==> (c as u32) < 128,
{
    font8x8::BASIC_FONTS.get(c)
}

/// What the terminal needs to know of the framebuffer it draws to.
#[derive(Clone, Copy, Debug, PartialEq, Eq, Structural)]
pub struct FramebufferInfo {
    /// Pixels per row.
    pub width: usize,
    /// Number of rows.
    pub height: usize,
    /// Bits per pixel.
    pub bpp: u16,
}

/// The colour drawn for pixel `col` of row `row` of glyph `g`.
pub open spec fn glyph_color(g: [u8; 8], row: int, col: int, screen: u32, text: u32) -> u32 {
    if g@[row] & (1u8 << (col as u8)) == 0u8 {
        screen
    } else {
        text
    }
}

/// The framebuffer after pixel `(x, y)` is set to `color`: the `u32` at index
/// `(y * width + x) * bytes_per_pixel` takes the colour when a pixel is one
/// `u32` wide, and nothing is written when it is zero wide.
pub open spec fn pixel_write(
    fb: Seq<u32>,
    x: int,
    y: int,
    color: u32,
    width: int,
    bytes_per_pixel: int,
) -> Seq<u32> {
    if bytes_per_pixel == 0 {
        fb
    } else {
        fb.update((y * width + x) * bytes_per_pixel, color)
    }
}

/// The framebuffer after the first `k` of the 64 pixels of glyph `g` were drawn
/// with its top-left corner at `(x0, y0)`, row by row, left to right.
pub open spec fn painted(
    fb: Seq<u32>,
    g: [u8; 8],
    x0: int,
    y0: int,
    width: int,
    bytes_per_pixel: int,
    screen: u32,
    text: u32,
    k: nat,
) -> Seq<u32>
    decreases k,
{
    if k == 0 {
        fb
    } else {
        let j = k - 1;
        pixel_write(
            painted(fb, g, x0, y0, width, bytes_per_pixel, screen, text, j as nat),
            x0 + j % 8,
            y0 + j / 8,
            glyph_color(g, j / 8, j % 8, screen, text),
            width,
            bytes_per_pixel,
        )
    }
}

/// Where a printable character is drawn from cursor `(x, y)`: the cursor wraps to
/// the next line when it stands at or beyond the right edge, and the screen is
/// cleared (the bool) and the cursor sent home when the line would reach past
/// `height - 8`.
pub open spec fn glyph_origin(x: int, y: int, width: int, height: int) -> (int, int, bool) {
    let x1 = if x >= width { 0 } else { x };
    let y1 = if x >= width { y + 8 + LINE_SPACING } else { y };
    if y1 >= height - 8 {
        (0, 0, true)
    } else {
        (x1, y1, false)
    }
}

/// A terminal state: framebuffer contents and cursor.
pub type TermState = (Seq<u32>, int, int);

/// The terminal state after character `c`.
pub open spec fn char_step(st: TermState, c: char, info: FramebufferInfo, screen: u32, text: u32) -> TermState {
    let (fb, x, y) = st;
    if c == '\n' {
        (fb, 0, y + 8 + LINE_SPACING)
    } else if c == '\r' {
        (fb, 0, y)
    } else {
        let (x2, y2, cleared) = glyph_origin(x, y, info.width as int, info.height as int);
        let fb2 = if cleared { Seq::new(fb.len(), |i: int| 0u32) } else { fb };
        (
            painted(
                fb2,
                basic_font_glyph(c)->0,
                x2,
                y2,
                info.width as int,
                info.bpp as int / 8,
                screen,
                text,
                64,
            ),
            x2 + 8,
            y2,
        )
    }
}

/// The terminal state after the characters of `cs`, in order.
pub open spec fn str_steps(st: TermState, cs: Seq<char>, info: FramebufferInfo, screen: u32, text: u32) -> TermState
    decreases cs.len(),
{
    if cs.len() == 0 {
        st
    } else {
        char_step(str_steps(st, cs.drop_last(), info, screen, text), cs.last(), info, screen, text)
    }
}

/// Printing `a` and then `b` leaves the terminal as printing `a + b` does.
pub proof fn law_write_str_concat(
    st: TermState,
    a: Seq<char>,
    b: Seq<char>,
    info: FramebufferInfo,
    screen: u32,
    text: u32,
)
    ensures
        str_steps(str_steps(st, a, info, screen, text), b, info, screen, text) == str_steps(
            st,
            a + b,
            info,
            screen,
            text,
        ),
    decreases b.len(),
{
    if b.len() == 0 {
        assert(a + b =~= a);
    } else {
        law_write_str_concat(st, a, b.drop_last(), info, screen, text);
        assert((a + b).drop_last() =~= a + b.drop_last());
        assert((a + b).last() == b.last());
    }
}

/// Index of pixel `(c, r)` of a glyph drawn with its top-left corner at
/// `(x0, y0)` on a screen `width` pixels wide.
pub open spec fn glyph_cell(x0: int, y0: int, width: int, r: int, c: int) -> int {
    (y0 + r) * width + x0 + c
}

/// Index `i` is one of the 64 pixels of a glyph drawn at `(x0, y0)`.
pub open spec fn in_glyph(i: int, x0: int, y0: int, width: int) -> bool {
    exists|r: int, c: int|
        0 <= r < 8 && 0 <= c < 8 && i == #[trigger] glyph_cell(x0, y0, width, r, c)
}

proof fn lemma_cell_bound(x0: int, y0: int, width: int, r: int, c: int)
    requires
        0 <= x0,
        0 <= y0,
        0 <= width,
        0 <= r < 8,
        0 <= c < 8,
    ensures
        0 <= glyph_cell(x0, y0, width, r, c) <= (y0 + 7) * width + x0 + 7,
{
    assert(0 <= (y0 + r) * width <= (y0 + 7) * width) by (nonlinear_arith)
        requires
            0 <= y0,
            0 <= r < 8,
            0 <= width,
    ;
}

proof fn lemma_cells_distinct(x0: int, y0: int, width: int, r1: int, c1: int, r2: int, c2: int)
    requires
        width >= 8,
        0 <= r1 < 8,
        0 <= c1 < 8,
        0 <= r2 < 8,
        0 <= c2 < 8,
        glyph_cell(x0, y0, width, r1, c1) == glyph_cell(x0, y0, width, r2, c2),
    ensures
        r1 == r2,
        c1 == c2,
{
    assert((r1 - r2) * width == c2 - c1) by (nonlinear_arith)
        requires
            (y0 + r1) * width + x0 + c1 == (y0 + r2) * width + x0 + c2,
    ;
    assert(r1 == r2) by (nonlinear_arith)
        requires
            (r1 - r2) * width == c2 - c1,
            width >= 8,
            -8 < c2 - c1 < 8,
    ;
}

proof fn lemma_painted_frame(
    fb: Seq<u32>,
    g: [u8; 8],
    x0: int,
    y0: int,
    width: int,
    b: int,
    screen: u32,
    text: u32,
    k: nat,
)
    requires
        k <= 64,
        0 <= x0,
        0 <= y0,
        0 <= width,
        0 <= b <= 1,
        b == 1 ==> (y0 + 7) * width + x0 + 7 < fb.len(),
    ensures
        painted(fb, g, x0, y0, width, b, screen, text, k).len() == fb.len(),
        forall|i: int|
            0 <= i < fb.len() && !in_glyph(i, x0, y0, width) ==> #[trigger] painted(
                fb,
                g,
                x0,
                y0,
                width,
                b,
                screen,
                text,
                k,
            )[i] == fb[i],
        b == 1 && width >= 8 ==> forall|j: int|
            0 <= j < k ==> #[trigger] painted(fb, g, x0, y0, width, b, screen, text, k)[glyph_cell(
                x0,
                y0,
                width,
                j / 8,
                j % 8,
            )] == glyph_color(g, j / 8, j % 8, screen, text),
    decreases k,
{
    if k > 0 {
        let j = k - 1;
        lemma_painted_frame(fb, g, x0, y0, width, b, screen, text, j as nat);
        let prev = painted(fb, g, x0, y0, width, b, screen, text, j as nat);
        let cur = painted(fb, g, x0, y0, width, b, screen, text, k);
        let at = glyph_cell(x0, y0, width, j / 8, j % 8);
        lemma_cell_bound(x0, y0, width, j / 8, j % 8);
        assert(((y0 + j / 8) * width + (x0 + j % 8)) == at);
        if b == 1 {
            assert((at * b) == at);
            assert(cur == prev.update(at, glyph_color(g, j / 8, j % 8, screen, text)));
            assert forall|i: int|
                0 <= i < fb.len() && !in_glyph(i, x0, y0, width) implies #[trigger] cur[i] == fb[i] by {
                if i == at {
                    assert(in_glyph(i, x0, y0, width));
                }
            }
            if width >= 8 {
                assert forall|m: int| 0 <= m < k implies #[trigger] cur[glyph_cell(
                    x0,
                    y0,
                    width,
                    m / 8,
                    m % 8,
                )] == glyph_color(g, m / 8, m % 8, screen, text) by {
                    if m < j {
                        let am = glyph_cell(x0, y0, width, m / 8, m % 8);
                        lemma_cell_bound(x0, y0, width, m / 8, m % 8);
                        if am == at {
                            lemma_cells_distinct(x0, y0, width, m / 8, m % 8, j / 8, j % 8);
                            assert(m == 8 * (m / 8) + m % 8);
                            assert(j == 8 * (j / 8) + j % 8);
                        }
                    }
                }
            }
        } else {
            assert(cur == prev);
        }
    }
}

/// Drawing a glyph changes no pixel outside its 64 cells and keeps the
/// framebuffer's length; on a screen at least 8 pixels wide with one `u32` per
/// pixel each cell `(c, r)` ends up with the glyph's colour for it.
pub proof fn law_glyph_paints_only_its_cells(
    fb: Seq<u32>,
    g: [u8; 8],
    x0: int,
    y0: int,
    width: int,
    b: int,
    screen: u32,
    text: u32,
)
    requires
        0 <= x0,
        0 <= y0,
        0 <= width,
        0 <= b <= 1,
        b == 1 ==> (y0 + 7) * width + x0 + 7 < fb.len(),
    ensures
        painted(fb, g, x0, y0, width, b, screen, text, 64).len() == fb.len(),
        forall|i: int|
            0 <= i < fb.len() && !in_glyph(i, x0, y0, width) ==> #[trigger] painted(
                fb,
                g,
                x0,
                y0,
                width,
                b,
                screen,
                text,
                64,
            )[i] == fb[i],
        b == 1 && width >= 8 ==> forall|r: int, c: int|
            0 <= r < 8 && 0 <= c < 8 ==> #[trigger] painted(
                fb,
                g,
                x0,
                y0,
                width,
                b,
                screen,
                text,
                64,
            )[glyph_cell(x0, y0, width, r, c)] == glyph_color(g, r, c, screen, text),
{
    lemma_painted_frame(fb, g, x0, y0, width, b, screen, text, 64);
    if b == 1 && width >= 8 {
        assert forall|r: int, c: int| 0 <= r < 8 && 0 <= c < 8 implies #[trigger] painted(
            fb,
            g,
            x0,
            y0,
            width,
            b,
            screen,
            text,
            64,
        )[glyph_cell(x0, y0, width, r, c)] == glyph_color(g, r, c, screen, text) by {
            let m = 8 * r + c;
            assert(m / 8 == r && m % 8 == c);
            assert(painted(fb, g, x0, y0, width, b, screen, text, 64)[glyph_cell(
                x0,
                y0,
                width,
                m / 8,
                m % 8,
            )] == glyph_color(g, m / 8, m % 8, screen, text));
        }
    }
}

/// Where a character goes, from cursor `(x, y)`: a line feed moves to column 0
/// of the next line and a carriage return to column 0 of the same line, both
/// leaving the pixels alone; a glyph left of the right edge on a line above
/// `height - 8` is drawn at the cursor, which moves 8 right; a glyph at or past
/// the right edge goes to column 0 of the next line when that line is above
/// `height - 8`, and the cursor ends 8 right of it; otherwise the screen is
/// cleared and the glyph drawn at the top left, the cursor ending at `(8, 0)`.
pub proof fn law_char_placement(
    fb: Seq<u32>,
    x: int,
    y: int,
    c: char,
    info: FramebufferInfo,
    screen: u32,
    text: u32,
)
    ensures
        ({
            let w = info.width as int;
            let h = info.height as int;
            let b = info.bpp as int / 8;
            let g = basic_font_glyph(c)->0;
            let r = char_step((fb, x, y), c, info, screen, text);
            &&& c == '\n' ==> r == (fb, 0int, y + 8)
            &&& c == '\r' ==> r == (fb, 0int, y)
            &&& draws_glyph(c) && x < w && y < h - 8 ==> r == (
                painted(fb, g, x, y, w, b, screen, text, 64),
                x + 8,
                y,
            )
            &&& draws_glyph(c) && x >= w && y + 8 < h - 8 ==> r == (
                painted(fb, g, 0, y + 8, w, b, screen, text, 64),
                8int,
                y + 8,
            )
            &&& draws_glyph(c) && ((x < w && y >= h - 8) || (x >= w && y + 8 >= h - 8)) ==> r == (
                painted(Seq::new(fb.len(), |i: int| 0u32), g, 0, 0, w, b, screen, text, 64),
                8int,
                0int,
            )
        }),
{
}

/// The characters the terminal can print: line feed, carriage return and the
/// basic-Latin characters the font has a glyph for.
pub open spec fn printable(c: char) -> bool {
    c == '\n' || c == '\r' || (c as u32) < 128
}

/// The number of pixel rows, from the top, that glyphs can reach on a screen
/// of `height` rows: a glyph's top row is at most `height - 9`, so rows up to
/// `height - 2`; with exactly 8 rows every glyph is drawn at the top.
pub open spec fn glyph_rows(height: int) -> int {
    if height == 8 {
        8
    } else {
        height - 1
    }
}

/// `c` is drawn as a glyph (it is neither a line feed nor a carriage return).
pub open spec fn draws_glyph(c: char) -> bool {
    c != '\n' && c != '\r'
}

/// Text drawn into a pixel framebuffer with an 8x8 font.
pub struct Logger {
    framebuffer: Vec<u32>,
    info: FramebufferInfo,
    x_pos: usize,
    y_pos: usize,
    screen_color: u32,
    text_color: u32,
}

impl Logger {
    /// The framebuffer contents.
    pub closed spec fn frame(&self) -> Seq<u32> {
        self.framebuffer@
    }

    /// The framebuffer's geometry.
    pub closed spec fn geometry(&self) -> FramebufferInfo {
        self.info
    }

    /// The cursor's column, in pixels.
    pub closed spec fn cursor_x(&self) -> int {
        self.x_pos as int
    }

    /// The cursor's row, in pixels.
    pub closed spec fn cursor_y(&self) -> int {
        self.y_pos as int
    }

    /// The background colour.
    pub closed spec fn screen(&self) -> u32 {
        self.screen_color
    }

    /// The text colour.
    pub closed spec fn text(&self) -> u32 {
        self.text_color
    }

    /// The state that `char_step` and `str_steps` speak of.
    pub open spec fn term_state(&self) -> TermState {
        (self.frame(), self.cursor_x(), self.cursor_y())
    }

    /// The geometry lets a glyph be drawn at any cursor position without
    /// reaching past the framebuffer: at least 8 rows, at most one `u32` per
    /// pixel, and room for a glyph drawn at the right edge of the lowest line
    /// a glyph can stand on (see [`glyph_rows`]).
    pub open spec fn wf(&self) -> bool {
        let w = self.geometry().width as int;
        let h = self.geometry().height as int;
        let b = self.geometry().bpp as int / 8;
        &&& h >= 8
        &&& b <= 1
        &&& glyph_rows(h) * w + 7 <= usize::MAX
        &&& b == 1 ==> glyph_rows(h) * w + 7 <= self.frame().len() && 8 <= self.frame().len()
        &&& b == 0 ==> self.frame().len() >= 1
    }

    /// A terminal on `framebuffer` with the given geometry: white text on black,
    /// the cursor home and the framebuffer cleared to zero.
    pub fn new(framebuffer: Vec<u32>, info: FramebufferInfo) -> (l: Logger)
        ensures
            l.frame() == Seq::new(framebuffer@.len(), |i: int| 0u32),
            l.geometry() == info,
            l.cursor_x() == 0,
            l.cursor_y() == 0,
            l.screen() == 0,
            l.text() == 0xFFFF_FFFFu32,
    {
        let mut logger = Logger {
            framebuffer,
            info,
            x_pos: 0,
            y_pos: 0,
            screen_color: 0,
            text_color: 0xFFFF_FFFF,
        };
        logger.clear();
        logger
    }

    fn newline(&mut self)
        requires
            old(self).y_pos + 8 + LINE_SPACING <= usize::MAX,
        ensures
            final(self).y_pos == old(self).y_pos + 8 + LINE_SPACING,
            final(self).x_pos == 0,
            final(self).framebuffer == old(self).framebuffer,
            final(self).info == old(self).info,
            final(self).screen_color == old(self).screen_color,
            final(self).text_color == old(self).text_color,
    {
        self.y_pos = self.y_pos + 8 + LINE_SPACING;
        self.carriage_return()
    }

    fn _add_vspace(&mut self, space: usize)
        requires
            old(self).y_pos + space <= usize::MAX,
        ensures
            final(self).y_pos == old(self).y_pos + space,
            final(self).x_pos == old(self).x_pos,
            final(self).framebuffer == old(self).framebuffer,
            final(self).info == old(self).info,
            final(self).screen_color == old(self).screen_color,
            final(self).text_color == old(self).text_color,
    {
        self.y_pos = self.y_pos + space;
    }

    fn carriage_return(&mut self)
        ensures
            final(self).x_pos == 0,
            final(self).y_pos == old(self).y_pos,
            final(self).framebuffer == old(self).framebuffer,
            final(self).info == old(self).info,
            final(self).screen_color == old(self).screen_color,
            final(self).text_color == old(self).text_color,
    {
        self.x_pos = 0;
    }

    /// Erases all text: the cursor goes home and the framebuffer is set to zero.
    pub fn clear(&mut self)
        ensures
            final(self).frame() == Seq::new(old(self).frame().len(), |i: int| 0u32),
            final(self).cursor_x() == 0,
            final(self).cursor_y() == 0,
            final(self).geometry() == old(self).geometry(),
            final(self).screen() == old(self).screen(),
            final(self).text() == old(self).text(),
    {
        self.x_pos = 0;
        self.y_pos = 0;
        let n = self.framebuffer.len();
        let mut i: usize = 0;
        while i < n
            invariant
                n == self.framebuffer@.len(),
                n == old(self).framebuffer@.len(),
                0 <= i <= n,
                forall|j: int| 0 <= j < i ==> self.framebuffer@[j] == 0u32,
                self.x_pos == 0,
                self.y_pos == 0,
                self.info == old(self).info,
                self.screen_color == old(self).screen_color,
                self.text_color == old(self).text_color,
            decreases n - i,
        {
            self.framebuffer.set(i, 0);
            i = i + 1;
        }
        assert(self.frame() =~= Seq::new(old(self).frame().len(), |i: int| 0u32));
    }

    /// Sets both colours and fills the framebuffer with the background colour.
    pub fn set_colors(&mut self, back: u32, fore: u32)
        ensures
            final(self).frame() == Seq::new(old(self).frame().len(), |i: int| back),
            final(self).screen() == back,
            final(self).text() == fore,
            final(self).cursor_x() == old(self).cursor_x(),
            final(self).cursor_y() == old(self).cursor_y(),
            final(self).geometry() == old(self).geometry(),
    {
        self.screen_color = back;
        self.text_color = fore;
        let n = self.framebuffer.len();
        let mut i: usize = 0;
        while i < n
            invariant
                n == self.framebuffer@.len(),
                n == old(self).framebuffer@.len(),
                0 <= i <= n,
                forall|j: int| 0 <= j < i ==> self.framebuffer@[j] == back,
                self.x_pos == old(self).x_pos,
                self.y_pos == old(self).y_pos,
                self.info == old(self).info,
                self.screen_color == back,
                self.text_color == fore,
            decreases n - i,
        {
            self.framebuffer.set(i, back);
            i = i + 1;
        }
        assert(self.frame() =~= Seq::new(old(self).frame().len(), |i: int| back));
    }

    /// The framebuffer contents, for copying to the screen.
    pub fn pixels(&self) -> (r: &[u32])
        ensures
            r@ == self.frame(),
    {
        self.framebuffer.as_slice()
    }

    /// The cursor position (column, row) in pixels.
    pub fn cursor(&self) -> (r: (usize, usize))
        ensures
            r.0 == self.cursor_x(),
            r.1 == self.cursor_y(),
    {
        (self.x_pos, self.y_pos)
    }

    fn width(&self) -> (w: usize)
        ensures
            w == self.info.width,
    {
        self.info.width
    }

    fn height(&self) -> (h: usize)
        ensures
            h == self.info.height,
    {
        self.info.height
    }

    fn write_pixel(&mut self, x: usize, y: usize, color32: u32)
        requires
            y * old(self).info.width + x <= usize::MAX,
            (old(self).info.bpp as int / 8) <= 1,
            (y * old(self).info.width + x) * ((old(self).info.bpp as int / 8)) < old(self).framebuffer@.len(),
        ensures
            final(self).framebuffer@ == pixel_write(
                old(self).framebuffer@,
                x as int,
                y as int,
                color32,
                old(self).info.width as int,
                (old(self).info.bpp as int / 8),
            ),
            final(self).info == old(self).info,
            final(self).x_pos == old(self).x_pos,
            final(self).y_pos == old(self).y_pos,
            final(self).screen_color == old(self).screen_color,
            final(self).text_color == old(self).text_color,
    {
        let pixel_offset = (y * self.info.width) + x;
        let bytes_per_pixel = (self.info.bpp / 8) as usize;
        proof {
            assert(pixel_offset * bytes_per_pixel <= pixel_offset) by (nonlinear_arith)
                requires
                    bytes_per_pixel <= 1,
            ;
        }
        let byte_offset = pixel_offset * bytes_per_pixel;
        if bytes_per_pixel == 1 {
            self.framebuffer.set(byte_offset, color32);
        }
        let _ = self.framebuffer[byte_offset];
    }

    fn write_rendered_char(&mut self, rendered_char: [u8; 8])
        requires
            (old(self).y_pos + 7) * old(self).info.width + old(self).x_pos + 7 <= usize::MAX,
            old(self).x_pos + 8 <= usize::MAX,
            old(self).y_pos + 7 <= usize::MAX,
            (old(self).info.bpp as int / 8) <= 1,
            (old(self).info.bpp as int / 8) == 1 ==> (old(self).y_pos + 7) * old(self).info.width
                + old(self).x_pos + 7 < old(self).framebuffer@.len(),
            (old(self).info.bpp as int / 8) == 0 ==> old(self).framebuffer@.len() > 0,
        ensures
            final(self).framebuffer@ == painted(
                old(self).framebuffer@,
                rendered_char,
                old(self).x_pos as int,
                old(self).y_pos as int,
                old(self).info.width as int,
                (old(self).info.bpp as int / 8),
                old(self).screen_color,
                old(self).text_color,
                64,
            ),
            final(self).framebuffer@.len() == old(self).framebuffer@.len(),
            final(self).x_pos == old(self).x_pos + 8,
            final(self).y_pos == old(self).y_pos,
            final(self).info == old(self).info,
            final(self).screen_color == old(self).screen_color,
            final(self).text_color == old(self).text_color,
    {
        let ghost fb0 = self.framebuffer@;
        let ghost w = self.info.width as int;
        let ghost b = self.info.bpp as int / 8;
        let ghost x0 = self.x_pos as int;
        let ghost y0 = self.y_pos as int;
        let mut y: usize = 0;
        while y < 8
            invariant
                0 <= y <= 8,
                self.info == old(self).info,
                self.x_pos == old(self).x_pos,
                self.y_pos == old(self).y_pos,
                self.screen_color == old(self).screen_color,
                self.text_color == old(self).text_color,
                w == self.info.width,
                b == self.info.bpp as int / 8,
                x0 == self.x_pos,
                y0 == self.y_pos,
                (y0 + 7) * w + x0 + 7 <= usize::MAX,
                y0 + 7 <= usize::MAX,
                b <= 1,
                b == 1 ==> (y0 + 7) * w + x0 + 7 < fb0.len(),
                b == 0 ==> fb0.len() > 0,
                self.framebuffer@.len() == fb0.len(),
                self.framebuffer@ == painted(
                    fb0,
                    rendered_char,
                    x0,
                    y0,
                    w,
                    b,
                    self.screen_color,
                    self.text_color,
                    (y * 8) as nat,
                ),
            decreases 8 - y,
        {
            let byte = rendered_char[y];
            let mut x: usize = 0;
            while x < 8
                invariant
                    0 <= y < 8,
                    0 <= x <= 8,
                    byte == rendered_char@[y as int],
                    self.info == old(self).info,
                    self.x_pos == old(self).x_pos,
                    self.y_pos == old(self).y_pos,
                    self.screen_color == old(self).screen_color,
                    self.text_color == old(self).text_color,
                    w == self.info.width,
                    b == self.info.bpp as int / 8,
                    x0 == self.x_pos,
                    y0 == self.y_pos,
                    (y0 + 7) * w + x0 + 7 <= usize::MAX,
                    y0 + 7 <= usize::MAX,
                    b <= 1,
                    b == 1 ==> (y0 + 7) * w + x0 + 7 < fb0.len(),
                    b == 0 ==> fb0.len() > 0,
                    self.framebuffer@.len() == fb0.len(),
                    self.framebuffer@ == painted(
                        fb0,
                        rendered_char,
                        x0,
                        y0,
                        w,
                        b,
                        self.screen_color,
                        self.text_color,
                        (y * 8 + x) as nat,
                    ),
                decreases 8 - x,
            {
                let color = if byte & (1u8 << (x as u8)) == 0 {
                    self.screen_color
                } else {
                    self.text_color
                };
                proof {
                    let k = y * 8 + x;
                    assert(k % 8 == x && k / 8 == y) by (nonlinear_arith)
                        requires
                            k == y * 8 + x,
                            x < 8,
                    ;
                    assert((y0 + y) * w <= (y0 + 7) * w) by (nonlinear_arith)
                        requires
                            y <= 7,
                            w >= 0,
                    ;
                    if b == 0 {
                        assert(((y0 + y) * w + x0 + x) * b == 0) by (nonlinear_arith)
                            requires
                                b == 0,
                        ;
                    }
                }
                self.write_pixel(self.x_pos + x, self.y_pos + y, color);
                x = x + 1;
            }
            y = y + 1;
        }
        self.x_pos = self.x_pos + 8;
    }

    /// Prints one character: line feed and carriage return move the cursor, any
    /// other character is drawn with `char_step`'s wrapping and clearing.
    pub fn write_char(&mut self, c: char)
        requires
            draws_glyph(c) ==> old(self).wf(),
            printable(c),
            old(self).cursor_y() + 8 <= usize::MAX,
        ensures
            final(self).term_state() == char_step(
                old(self).term_state(),
                c,
                old(self).geometry(),
                old(self).screen(),
                old(self).text(),
            ),
            final(self).frame().len() == old(self).frame().len(),
            final(self).geometry() == old(self).geometry(),
            final(self).screen() == old(self).screen(),
            final(self).text() == old(self).text(),
    {
        if c == '\n' {
            self.newline();
        } else if c == '\r' {
            self.carriage_return();
        } else {
            let ghost w = self.info.width as int;
            let ghost h = self.info.height as int;
            let ghost origin = glyph_origin(self.x_pos as int, self.y_pos as int, w, h);
            if self.x_pos >= self.width() {
                self.newline();
            }
            if self.y_pos >= (self.height() - 8) {
                self.clear();
            }
            let rendered = match basic_glyph(c) {
                Some(g) => g,
                None => vstd::pervasive::unreached(),
            };
            proof {
                let x2 = self.x_pos as int;
                let y2 = self.y_pos as int;
                assert(x2 == origin.0 && y2 == origin.1);
                let rows = glyph_rows(h);
                assert(y2 + 7 <= rows - 1);
                assert(x2 == 0 || x2 < w);
                assert((y2 + 7) * w <= (rows - 1) * w) by (nonlinear_arith)
                    requires
                        y2 + 7 <= rows - 1,
                        w >= 0,
                ;
                assert((rows - 1) * w == rows * w - w) by (nonlinear_arith);
                if w > 0 {
                    assert((y2 + 7) * w + x2 + 7 <= rows * w + 6);
                } else {
                    assert((y2 + 7) * w == 0) by (nonlinear_arith)
                        requires
                            w == 0,
                    ;
                    assert(rows * w == 0) by (nonlinear_arith)
                        requires
                            w == 0,
                    ;
                }
            }
            self.write_rendered_char(rendered);
        }
    }

    /// Prints the characters of `s` in order; each must be printable, the
    /// geometry must allow glyphs when `s` holds one, and the cursor must have
    /// room to move down one line per character.
    pub fn write_str(&mut self, s: &str)
        requires
            forall|i: int| 0 <= i < s@.len() ==> printable(#[trigger] s@[i]),
            forall|i: int| 0 <= i < s@.len() && draws_glyph(#[trigger] s@[i]) ==> old(self).wf(),
            old(self).cursor_y() + 8 * s@.len() <= usize::MAX,
        ensures
            final(self).term_state() == str_steps(
                old(self).term_state(),
                s@,
                old(self).geometry(),
                old(self).screen(),
                old(self).text(),
            ),
            final(self).geometry() == old(self).geometry(),
            final(self).screen() == old(self).screen(),
            final(self).text() == old(self).text(),
    {
        let n = s.unicode_len();
        let mut i: usize = 0;
        while i < n
            invariant
                n == s@.len(),
                0 <= i <= n,
                forall|j: int| 0 <= j < s@.len() ==> printable(#[trigger] s@[j]),
                forall|j: int| 0 <= j < s@.len() && draws_glyph(#[trigger] s@[j]) ==> old(self).wf(),
                old(self).cursor_y() + 8 * s@.len() <= usize::MAX,
                self.frame().len() == old(self).frame().len(),
                self.geometry() == old(self).geometry(),
                self.screen() == old(self).screen(),
                self.text() == old(self).text(),
                self.cursor_y() <= old(self).cursor_y() + 8 * i,
                self.term_state() == str_steps(
                    old(self).term_state(),
                    s@.take(i as int),
                    old(self).geometry(),
                    old(self).screen(),
                    old(self).text(),
                ),
            decreases n - i,
        {
            let c = s.get_char(i);
            proof {
                assert(draws_glyph(s@[i as int]) ==> self.wf());
                assert(s@.take(i + 1).drop_last() =~= s@.take(i as int));
                assert(s@.take(i + 1).last() == c);
            }
            self.write_char(c);
            i = i + 1;
        }
        assert(s@.take(n as int) =~= s@);
    }

}

} // verus!
