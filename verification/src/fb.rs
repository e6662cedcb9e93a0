use vstd::prelude::*;
use crate::multiboot::{le_u32, le_u64, read_u32, read_u64, tag_offsets, tag_walk, FIRST_TAG, TAG_FRAMEBUFFER};

verus! {

/// Foreground and background colours of the text console.
pub const FG: u32 = 0x00d0d0d0;
pub const BG: u32 = 0x00000000;

/// A linear framebuffer: its physical address, bytes per line, size in pixels and
/// bits per pixel.
#[derive(Debug, Clone, Copy, PartialEq, Eq, Structural)]
pub struct FbInfo {
    pub phys: u64,
    pub pitch: u32,
    pub width: u32,
    pub height: u32,
    pub bpp: u8,
}

/// The framebuffer the tag at `off` describes: `None` when it is not a direct-RGB
/// one (type byte at 29 not 1).
pub open spec fn fb_of_tag(s: Seq<u8>, off: int) -> Option<FbInfo> {
    if s[off + 29] != 1 {
        None
    } else {
        Some(FbInfo { phys: le_u64(s, off + 8), pitch: le_u32(s, off + 16), width: le_u32(s, off + 20), height: le_u32(s, off + 24), bpp: s[off + 28] })
    }
}

/// The index of the first framebuffer tag among `tags`, if any.
pub open spec fn first_fb_tag(s: Seq<u8>, tags: Seq<int>) -> Option<int> {
    let ts = tags.map_values(|o: int| le_u32(s, o) == TAG_FRAMEBUFFER);
    ts.index_of_first(true)
}

/// The framebuffer of the information structure `s`: `Some(None)` when its first
/// framebuffer tag is not direct RGB or there is none; `None` when `s` is
/// malformed or that tag is cut off.
pub open spec fn fb_info_spec(s: Seq<u8>) -> Option<Option<FbInfo>> {
    match tag_walk(s, FIRST_TAG as int) {
        None => None,
        Some(tags) => match first_fb_tag(s, tags) {
            None => Some(None),
            Some(k) => if tags[k] + 30 > s.len() {
                None
            } else {
                Some(fb_of_tag(s, tags[k]))
            },
        },
    }
}

/// The framebuffer the information structure `info` describes, as
/// `fb_info_spec` says.
pub fn fb_info(info: &[u8]) -> (r: Option<Option<FbInfo>>)
    ensures
        r == fb_info_spec(info@),
{
    let tags = match tag_offsets(info) {
        None => return None,
        Some(t) => t,
    };
    let ghost ts = tags@.map_values(|o: usize| o as int);
    let ghost flags = ts.map_values(|o: int| le_u32(info@, o) == TAG_FRAMEBUFFER);
    proof {
        crate::multiboot::lemma_tag_walk_bounds(info@, FIRST_TAG as int);
    }
    let mut k: usize = 0;
    while k < tags.len()
        invariant
            k <= tags.len(),
            ts == tags@.map_values(|o: usize| o as int),
            flags == ts.map_values(|o: int| le_u32(info@, o) == TAG_FRAMEBUFFER),
            tag_walk(info@, FIRST_TAG as int) == Some(ts),
            forall|j: int| 0 <= j < ts.len() ==> 0 <= #[trigger] ts[j] && ts[j] + 8 <= info@.len(),
            forall|j: int| 0 <= j < k ==> #[trigger] flags[j] != true,
        decreases tags.len() - k,
    {
        let off = tags[k];
        assert(ts[k as int] == off as int);
        if read_u32(info, off) == TAG_FRAMEBUFFER {
            proof {
                flags.index_of_first_ensures(true);
                assert(flags[k as int] == true);
                let f = flags.index_of_first(true);
                if f.unwrap() < k {
                    assert(flags[f.unwrap()] != true);
                }
            }
            if info.len() - off < 30 {
                return None;
            }
            if info[off + 29] != 1 {
                return Some(None);
            }
            return Some(Some(FbInfo {
                phys: read_u64(info, off + 8),
                pitch: read_u32(info, off + 16),
                width: read_u32(info, off + 20),
                height: read_u32(info, off + 24),
                bpp: info[off + 28],
            }));
        }
        k = k + 1;
    }
    proof {
        flags.index_of_first_ensures(true);
        if flags.contains(true) {
            let j = choose|j: int| 0 <= j < flags.len() && flags[j] == true;
            assert(flags[j] != true);
        }
    }
    Some(None)
}

/// Bytes per pixel.
pub open spec fn bytes_pp(fb: FbInfo) -> int {
    fb.bpp as int / 8
}

/// Where pixel `(x, y)` starts in the framebuffer; `None` outside it.
pub open spec fn pixel_offset_spec(fb: FbInfo, x: u32, y: u32) -> Option<int> {
    if x >= fb.width || y >= fb.height {
        None
    } else {
        Some(y * fb.pitch + x * bytes_pp(fb))
    }
}

/// The memory of the framebuffer holds every line, and a line holds every pixel.
pub open spec fn fb_fits(fb: FbInfo, len: int) -> bool {
    &&& fb.height * fb.pitch <= len
    &&& fb.width * bytes_pp(fb) <= fb.pitch
}

/// The bytes a pixel of `color` takes: four, little endian, at 32 bits per pixel;
/// the low three at 24; none at any other depth.
pub open spec fn pixel_bytes(bpp: u8, color: u32) -> Seq<u8> {
    let b = seq![(color & 0xFF) as u8, ((color >> 8u32) & 0xFF) as u8, ((color >> 16u32) & 0xFF) as u8, (color >> 24u32) as u8];
    if bpp == 32 {
        b
    } else if bpp == 24 {
        b.subrange(0, 3)
    } else {
        Seq::empty()
    }
}

/// Where pixel `(x, y)` starts, as `pixel_offset_spec` says.
pub fn pixel_offset(fb: &FbInfo, x: u32, y: u32) -> (r: Option<u64>)
    requires
        fb_fits(*fb, u64::MAX as int),
    ensures
        match pixel_offset_spec(*fb, x, y) {
            None => r is None,
            Some(o) => r == Some(o as u64),
        },
{
    if x >= fb.width || y >= fb.height {
        return None;
    }
    let bpp: u64 = (fb.bpp / 8) as u64;
    proof {
        let b = bytes_pp(*fb);
        assert(y * fb.pitch + x * b + b <= fb.height * fb.pitch) by (nonlinear_arith)
            requires
                x < fb.width,
                y < fb.height,
                fb.width * b <= fb.pitch,
                b >= 0,
        ;
        assert(0 <= y * fb.pitch) by (nonlinear_arith);
        assert(0 <= x * b) by (nonlinear_arith)
            requires
                b >= 0,
        ;
    }
    Some((y as u64) * (fb.pitch as u64) + (x as u64) * bpp)
}

/// Sets pixel `(x, y)` of the framebuffer memory `mem` to `color`: its bytes (see
/// `pixel_bytes`) are written at its offset; a pixel outside the framebuffer
/// changes nothing.
pub fn put_pixel(fb: &FbInfo, mem: &mut Vec<u8>, x: u32, y: u32, color: u32)
    requires
        fb_fits(*fb, old(mem)@.len() as int),
        old(mem)@.len() <= u64::MAX,
    ensures
        final(mem)@.len() == old(mem)@.len(),
        match pixel_offset_spec(*fb, x, y) {
            None => final(mem)@ == old(mem)@,
            Some(o) => final(mem)@ == old(mem)@.subrange(0, o) + pixel_bytes(fb.bpp, color) + old(mem)@.subrange(
                o + pixel_bytes(fb.bpp, color).len(),
                old(mem)@.len() as int,
            ),
        },
{
    let off = match pixel_offset(fb, x, y) {
        None => return,
        Some(o) => o as usize,
    };
    proof {
        let b = bytes_pp(*fb);
        assert(y * fb.pitch + x * b + b <= fb.height * fb.pitch) by (nonlinear_arith)
            requires
                x < fb.width,
                y < fb.height,
                fb.width * b <= fb.pitch,
                b >= 0,
        ;
    }
    let ghost before = mem@;
    let c0 = (color & 0xFF) as u8;
    let c1 = ((color >> 8u32) & 0xFF) as u8;
    let c2 = ((color >> 16u32) & 0xFF) as u8;
    let c3 = (color >> 24u32) as u8;
    if fb.bpp == 32 {
        assert(off + 4 <= mem.len());
        mem.set(off, c0);
        mem.set(off + 1, c1);
        mem.set(off + 2, c2);
        mem.set(off + 3, c3);
        assert(mem@ =~= before.subrange(0, off as int) + pixel_bytes(fb.bpp, color) + before.subrange(off + 4, before.len() as int));
    } else if fb.bpp == 24 {
        assert(off + 3 <= mem.len());
        mem.set(off, c0);
        mem.set(off + 1, c1);
        mem.set(off + 2, c2);
        assert(mem@ =~= before.subrange(0, off as int) + pixel_bytes(fb.bpp, color) + before.subrange(off + 3, before.len() as int));
    } else {
        assert(before =~= before.subrange(0, off as int) + pixel_bytes(fb.bpp, color) + before.subrange(off as int, before.len() as int));
    }
}

/// The framebuffer memory `m` with pixel `(x, y)` set to `color` (see `put_pixel`).
pub open spec fn with_pixel(fb: FbInfo, m: Seq<u8>, x: u32, y: u32, color: u32) -> Seq<u8> {
    match pixel_offset_spec(fb, x, y) {
        None => m,
        Some(o) => m.subrange(0, o) + pixel_bytes(fb.bpp, color) + m.subrange(
            o + pixel_bytes(fb.bpp, color).len(),
            m.len() as int,
        ),
    }
}

/// `m` with the `n` pixels of row `y` from column `x0` on set to `color`, left to
/// right.
pub open spec fn with_run(fb: FbInfo, m: Seq<u8>, x0: int, n: int, y: u32, color: u32) -> Seq<u8>
    decreases n,
{
    if n <= 0 {
        m
    } else {
        with_pixel(fb, with_run(fb, m, x0, n - 1, y, color), (x0 + n - 1) as u32, y, color)
    }
}

/// `m` with the `w` by `h` rectangle at `(x0, y0)` set to `color`, row by row.
pub open spec fn with_rect(fb: FbInfo, m: Seq<u8>, x0: int, y0: int, w: int, h: int, color: u32) -> Seq<u8>
    decreases h,
{
    if h <= 0 {
        m
    } else {
        with_run(fb, with_rect(fb, m, x0, y0, w, h - 1, color), x0, w, (y0 + h - 1) as u32, color)
    }
}

/// What `fill_rect` leaves in the framebuffer memory: at 32 bits per pixel the
/// rectangle clipped to the screen is painted; at other depths every pixel of it
/// is put, those off the screen changing nothing.
pub open spec fn fill_spec(fb: FbInfo, m: Seq<u8>, x: u32, y: u32, w: u32, h: u32, color: u32) -> Seq<u8> {
    if fb.bpp == 32 {
        let xe = if x + w < fb.width { x + w } else { fb.width as int };
        let ye = if y + h < fb.height { y + h } else { fb.height as int };
        with_rect(fb, m, x as int, y as int, xe - x, ye - y, color)
    } else {
        with_rect(fb, m, x as int, y as int, w as int, h as int, color)
    }
}

fn paint_rect(fb: &FbInfo, mem: &mut Vec<u8>, x: u32, y: u32, xe: u32, ye: u32, color: u32)
    requires
        fb_fits(*fb, old(mem)@.len() as int),
        old(mem)@.len() <= u64::MAX,
    ensures
        final(mem)@.len() == old(mem)@.len(),
        final(mem)@ == with_rect(*fb, old(mem)@, x as int, y as int, xe - x, ye - y, color),
{
    let ghost m0 = mem@;
    let mut row = y;
    while row < ye
        invariant
            y <= row,
            row <= ye || row == y,
            fb_fits(*fb, m0.len() as int),
            m0.len() <= u64::MAX,
            mem@.len() == m0.len(),
            mem@ == with_rect(*fb, m0, x as int, y as int, xe - x, row - y, color),
        decreases ye - row,
    {
        let ghost before = mem@;
        let mut col = x;
        while col < xe
            invariant
                x <= col,
                col <= xe || col == x,
                y <= row < ye,
                fb_fits(*fb, m0.len() as int),
                m0.len() <= u64::MAX,
                mem@.len() == m0.len(),
                before == with_rect(*fb, m0, x as int, y as int, xe - x, row - y, color),
                mem@ == with_run(*fb, before, x as int, col - x, row, color),
            decreases xe - col,
        {
            put_pixel(fb, mem, col, row, color);
            col = col + 1;
        }
        row = row + 1;
    }
}

/// Paints the rectangle of `w` by `h` pixels at `(x, y)` with `color`, as
/// `fill_spec` says.
pub fn fill_rect(fb: &FbInfo, mem: &mut Vec<u8>, x: u32, y: u32, w: u32, h: u32, color: u32)
    requires
        fb_fits(*fb, old(mem)@.len() as int),
        old(mem)@.len() <= u64::MAX,
        x + w <= u32::MAX,
        y + h <= u32::MAX,
    ensures
        final(mem)@.len() == old(mem)@.len(),
        final(mem)@ == fill_spec(*fb, old(mem)@, x, y, w, h, color),
{
    if fb.bpp == 32 {
        let (xe, ye) = clip_rect(fb, x, y, w, h);
        paint_rect(fb, mem, x, y, xe, ye, color);
    } else {
        paint_rect(fb, mem, x, y, x + w, y + h, color);
    }
}

/// `m` with each pixel `(x, y, colour)` of `px` put in turn.
pub open spec fn with_pixels(fb: FbInfo, m: Seq<u8>, px: Seq<(u32, u32, u32)>) -> Seq<u8>
    decreases px.len(),
{
    if px.len() == 0 {
        m
    } else {
        let p = px.last();
        with_pixel(fb, with_pixels(fb, m, px.drop_last()), p.0, p.1, p.2)
    }
}

/// Puts the pixels `(x, y, colour)` of `px` in order (the pixels of a glyph, for
/// one).
pub fn put_pixels(fb: &FbInfo, mem: &mut Vec<u8>, px: &[(u32, u32, u32)])
    requires
        fb_fits(*fb, old(mem)@.len() as int),
        old(mem)@.len() <= u64::MAX,
    ensures
        final(mem)@.len() == old(mem)@.len(),
        final(mem)@ == with_pixels(*fb, old(mem)@, px@),
{
    let mut i: usize = 0;
    while i < px.len()
        invariant
            i <= px@.len(),
            fb_fits(*fb, old(mem)@.len() as int),
            old(mem)@.len() <= u64::MAX,
            mem@.len() == old(mem)@.len(),
            mem@ == with_pixels(*fb, old(mem)@, px@.subrange(0, i as int)),
        decreases px@.len() - i,
    {
        let (x, y, c) = px[i];
        proof {
            assert(px@.subrange(0, i + 1).drop_last() =~= px@.subrange(0, i as int));
        }
        put_pixel(fb, mem, x, y, c);
        i = i + 1;
    }
    assert(px@.subrange(0, px@.len() as int) =~= px@);
}

/// What scrolling leaves: every line of the screen after the first `gh` pixel
/// lines moves up by `gh` lines (the bytes below the screen stay), and the last
/// text line, down to the bottom, is cleared to `BG`.
pub open spec fn scroll_spec(fb: FbInfo, gh: u32, rows: u32, m: Seq<u8>) -> Seq<u8> {
    let line = gh * fb.pitch;
    let total = fb.height * fb.pitch;
    let moved = m.subrange(line, total) + m.subrange(total - line, m.len() as int);
    let top = ((rows - 1) * gh) as u32;
    fill_spec(fb, moved, 0, top, fb.width, (fb.height - top) as u32, BG)
}

/// Clips a rectangle to the framebuffer: its right and bottom edges.
pub fn clip_rect(fb: &FbInfo, x: u32, y: u32, w: u32, h: u32) -> (r: (u32, u32))
    requires
        x + w <= u32::MAX,
        y + h <= u32::MAX,
    ensures
        r.0 == if x + w < fb.width { x + w } else { fb.width as int },
        r.1 == if y + h < fb.height { y + h } else { fb.height as int },
{
    let xe = if x + w < fb.width { x + w } else { fb.width };
    let ye = if y + h < fb.height { y + h } else { fb.height };
    (xe, ye)
}

/// A PSF2 font: its header, then one bitmap per glyph.
pub struct Font {
    data: Vec<u8>,
}

/// Header fields of a PSF2 font: header size, bytes per glyph, height, width.
pub open spec fn font_ok(d: Seq<u8>) -> bool {
    &&& d.len() >= 32
    &&& le_u32(d, 8) as int + 256 * le_u32(d, 20) as int <= d.len()
    &&& le_u32(d, 24) > 0
    &&& le_u32(d, 28) > 0
    &&& le_u32(d, 24) as int * ((le_u32(d, 28) as int + 7) / 8) <= le_u32(d, 20)
}

impl Font {
    pub closed spec fn view(&self) -> Seq<u8> {
        self.data@
    }

    /// A font from the bytes of a PSF2 file; `None` when its glyphs do not all lie
    /// in it or their size is zero or too small for their bitmaps.
    pub fn new(data: Vec<u8>) -> (r: Option<Self>)
        ensures
            match r {
                Some(f) => f@ == data@ && font_ok(data@),
                None => !font_ok(data@),
            },
    {
        if data.len() < 32 {
            return None;
        }
        let hs = read_u32(data.as_slice(), 8) as u64;
        let bpg = read_u32(data.as_slice(), 20) as u64;
        let gh = read_u32(data.as_slice(), 24) as u64;
        let gw = read_u32(data.as_slice(), 28) as u64;
        if hs + 256 * bpg > data.len() as u64 || gh == 0 || gw == 0 {
            return None;
        }
        assert(gh * ((gw + 7) / 8) <= 0xFFFF_FFFF * 0x2000_0000) by (nonlinear_arith)
            requires
                gh <= 0xFFFF_FFFF,
                gw <= 0xFFFF_FFFF,
        ;
        if gh * ((gw + 7) / 8) > bpg {
            return None;
        }
        Some(Font { data })
    }

    /// The little-endian header field at `off`.
    pub fn font_header(&self, off: usize) -> (r: u32)
        requires
            font_ok(self@),
            off + 4 <= 32,
        ensures
            r == le_u32(self@, off as int),
    {
        read_u32(self.data.as_slice(), off)
    }

    /// Glyph height in pixels.
    pub fn glyph_h(&self) -> (r: u32)
        requires
            font_ok(self@),
        ensures
            r == le_u32(self@, 24),
    {
        self.font_header(24)
    }

    /// Glyph width in pixels.
    pub fn glyph_w(&self) -> (r: u32)
        requires
            font_ok(self@),
        ensures
            r == le_u32(self@, 28),
    {
        self.font_header(28)
    }

    /// The bitmap of glyph `c`.
    pub fn glyph(&self, c: u8) -> (r: Vec<u8>)
        requires
            font_ok(self@),
        ensures
            r@ == self@.subrange(
                le_u32(self@, 8) + c * le_u32(self@, 20),
                le_u32(self@, 8) + c * le_u32(self@, 20) + le_u32(self@, 20),
            ),
    {
        let hs = self.font_header(8) as usize;
        let bpg = self.font_header(20) as usize;
        proof {
            assert((c as int) * (bpg as int) + (bpg as int) <= 256 * (bpg as int)) by (nonlinear_arith)
                requires
                    c < 256,
                    bpg >= 0,
            ;
            assert(0 <= (c as int) * (bpg as int)) by (nonlinear_arith)
                requires
                    bpg >= 0,
            ;
        }
        assert(hs == le_u32(self@, 8));
        assert(bpg == le_u32(self@, 20));
        assert(self@.len() == self.data.len());
        assert(hs + 256 * bpg <= self@.len());
        assert((c as usize) * bpg + bpg <= 256 * bpg) by (nonlinear_arith)
            requires
                c < 256,
        ;
        let cb: usize = c as usize * bpg;
        let start = hs + cb;
        let mut r: Vec<u8> = Vec::new();
        let mut i: usize = 0;
        while i < bpg
            invariant
                font_ok(self@),
                hs == le_u32(self@, 8),
                bpg == le_u32(self@, 20),
                start == hs + c * bpg,
                start + bpg <= self@.len(),
                self@.len() == self.data.len(),
                i <= bpg,
                r@ == self@.subrange(start as int, start + i),
            decreases bpg - i,
        {
            r.push(self.data[start + i]);
            i = i + 1;
            assert(r@ =~= self@.subrange(start as int, start + i));
        }
        r
    }
}

/// Whether bit `(row, col)` of a glyph bitmap `g` of width `w` is set: rows take
/// whole bytes, most significant bit first.
pub open spec fn glyph_bit(g: Seq<u8>, w: int, row: int, col: int) -> bool {
    (g[row * ((w + 7) / 8) + col / 8] >> ((7 - col % 8) as u8)) & 1 != 0
}

/// The pixels a glyph draws at `(px, py)`, row by row: `FG` where its bit is set,
/// else `BG`.
pub open spec fn glyph_pixel(g: Seq<u8>, w: int, px: u32, py: u32, k: int) -> (u32, u32, u32) {
    let row = k / w;
    let col = k % w;
    ((px + col) as u32, (py + row) as u32, if glyph_bit(g, w, row, col) { FG } else { BG })
}

/// The pixels `(x, y, colour)` of glyph `c` drawn with its top left at `(px, py)`,
/// row by row.
pub fn draw_glyph(font: &Font, c: u8, px: u32, py: u32) -> (r: Vec<(u32, u32, u32)>)
    requires
        font_ok(font@),
        px + le_u32(font@, 28) <= u32::MAX,
        py + le_u32(font@, 24) <= u32::MAX,
    ensures
        ({
            let g = font@.subrange(le_u32(font@, 8) + c * le_u32(font@, 20), le_u32(font@, 8) + c * le_u32(font@, 20) + le_u32(font@, 20));
            let w = le_u32(font@, 28) as int;
            &&& r@.len() == le_u32(font@, 24) * w
            &&& forall|k: int| 0 <= k < r@.len() ==> #[trigger] r@[k] == glyph_pixel(g, w, px, py, k)
        }),
{
    proof {
        let bpg = le_u32(font@, 20) as int;
        assert((c as int) * bpg + bpg <= 256 * bpg) by (nonlinear_arith)
            requires
                c < 256,
                bpg >= 0,
        ;
        assert(0 <= (c as int) * bpg) by (nonlinear_arith)
            requires
                bpg >= 0,
        ;
    }
    let g = font.glyph(c);
    let w = font.glyph_w();
    let h = font.glyph_h();
    let bpr: u64 = (w as u64 + 7) / 8;
    assert(g@.len() == le_u32(font@, 20));
    assert(bpr == (le_u32(font@, 28) as int + 7) / 8);
    assert(h * bpr <= g@.len());
    let mut r: Vec<(u32, u32, u32)> = Vec::new();
    let mut row: u32 = 0;
    while row < h
        invariant
            font_ok(font@),
            w == le_u32(font@, 28),
            h == le_u32(font@, 24),
            w > 0,
            bpr == (w + 7) / 8,
            h * bpr <= g@.len(),
            px + w <= u32::MAX,
            py + h <= u32::MAX,
            row <= h,
            r@.len() == row * w,
            forall|k: int| 0 <= k < r@.len() ==> #[trigger] r@[k] == glyph_pixel(g@, w as int, px, py, k),
        decreases h - row,
    {
        let mut col: u32 = 0;
        while col < w
            invariant
                w > 0,
                bpr == (w + 7) / 8,
                h * bpr <= g@.len(),
                px + w <= u32::MAX,
                py + h <= u32::MAX,
                row < h,
                col <= w,
                r@.len() == row * w + col,
                forall|k: int| 0 <= k < r@.len() ==> #[trigger] r@[k] == glyph_pixel(g@, w as int, px, py, k),
            decreases w - col,
        {
            proof {
                assert((row as int) * (bpr as int) + (col as int) / 8 < (h as int) * (bpr as int)) by (nonlinear_arith)
                    requires
                        row < h,
                        col < w,
                        bpr == (w + 7) / 8,
                ;
                assert(0 <= (row as int) * (bpr as int)) by (nonlinear_arith);
                assert((row as u64) * bpr + (col as u64) / 8 < (h as u64) * bpr) by (nonlinear_arith)
                    requires
                        row < h,
                        col < w,
                        bpr == (w + 7) / 8,
                ;
                assert(((row * w + col) as int) / (w as int) == row && ((row * w + col) as int) % (w as int) == col) by (nonlinear_arith)
                    requires
                        col < w,
                        w > 0,
                ;
            }
            assert(g@.len() == g.len());
            let idx: u64 = row as u64 * bpr + col as u64 / 8;
            assert(idx < g.len());
            let byte = g[idx as usize];
            let sh: u8 = (7 - col % 8) as u8;
            let bit = (byte >> sh) & 1;
            let color = if bit != 0 { FG } else { BG };
            r.push((px + col, py + row, color));
            col = col + 1;
        }
        proof {
            assert((row + 1) * w == row * w + w) by (nonlinear_arith);
        }
        row = row + 1;
    }
    proof {
        assert(g@.len() >= 0);
    }
    r
}

/// What the console asks of the screen for one character.
#[derive(Debug, Clone, Copy, PartialEq, Eq, Structural)]
pub enum ConOp {
    /// Draw glyph `c` with its top left at `(x, y)`.
    Draw { c: u8, x: u32, y: u32 },
    /// Move every text line up by one and clear the last.
    Scroll,
}

/// The text console: the framebuffer, whether there is one, the glyph size, and
/// the cursor.
pub struct Console {
    fb: FbInfo,
    present: bool,
    gw: u32,
    gh: u32,
    col: u32,
    row: u32,
}

impl Console {
    pub closed spec fn spec_present(&self) -> bool {
        self.present
    }

    pub closed spec fn cols(&self) -> u32 {
        (self.fb.width / self.gw) as u32
    }

    pub closed spec fn rows(&self) -> u32 {
        (self.fb.height / self.gh) as u32
    }

    pub closed spec fn cursor(&self) -> (u32, u32) {
        (self.col, self.row)
    }

    pub closed spec fn glyph_size(&self) -> (u32, u32) {
        (self.gw, self.gh)
    }

    pub closed spec fn framebuffer(&self) -> FbInfo {
        self.fb
    }

    pub closed spec fn wf(&self) -> bool {
        &&& self.gw > 0
        &&& self.gh > 0
        &&& self.rows() >= 1
        &&& self.row < self.rows()
        &&& (self.col == 0 || self.col < self.cols())
    }

    /// A console on `fb` (none when `fb` is `None`) with glyphs of `gw` by `gh`
    /// pixels, the cursor at the top left. The screen must hold at least one line.
    pub fn new(fb: Option<FbInfo>, gw: u32, gh: u32) -> (r: Self)
        requires
            gw > 0,
            gh > 0,
            fb matches Some(f) ==> f.height / gh >= 1,
        ensures
            r.wf(),
            r.spec_present() == fb is Some,
            r.cursor() == (0u32, 0u32),
            r.glyph_size() == (gw, gh),
    {
        match fb {
            Some(f) => {
                let r = Console { fb: f, present: true, gw, gh, col: 0, row: 0 };
                assert(r.rows() == f.height / gh);
                r
            },
            None => {
                let r = Console { fb: FbInfo { phys: 0, pitch: 0, width: 0, height: gh, bpp: 0 }, present: false, gw, gh, col: 0, row: 0 };
                assert(gh / gh == 1) by (nonlinear_arith)
                    requires
                        gh > 0,
                ;
                r
            },
        }
    }

    /// Whether there is a framebuffer.
    pub fn present(&self) -> (r: bool)
        ensures
            r == self.spec_present(),
    {
        self.present
    }

    /// Text columns and rows of the screen.
    pub fn text_cols(&self) -> (r: u32)
        requires
            self.wf(),
        ensures
            r == self.cols(),
    {
        self.fb.width / self.gw
    }

    pub fn text_rows(&self) -> (r: u32)
        requires
            self.wf(),
        ensures
            r == self.rows(),
    {
        self.fb.height / self.gh
    }

    /// Writes one character: a newline moves to the start of the next line, a
    /// carriage return to the start of this one, any other byte is drawn at the
    /// cursor, which then advances and wraps at the end of the line. When the
    /// cursor falls below the last line the screen scrolls and it stays on the
    /// last line. Returns what to do to the screen, in order.
    pub fn con_putc(&mut self, byte: u8) -> (ops: Vec<ConOp>)
        requires
            old(self).wf(),
        ensures
            final(self).wf(),
            final(self).spec_present() == old(self).spec_present(),
            final(self).glyph_size() == old(self).glyph_size(),
            final(self).cols() == old(self).cols(),
            final(self).rows() == old(self).rows(),
            ({
                let (col, row) = old(self).cursor();
                let (gw, gh) = old(self).glyph_size();
                let (c1, r1, drawn) = if byte == 10 {
                    (0u32, row + 1, false)
                } else if byte == 13 {
                    (0u32, row as int, false)
                } else if col + 1 >= old(self).cols() {
                    (0u32, row + 1, true)
                } else {
                    ((col + 1) as u32, row as int, true)
                };
                let draw = seq![ConOp::Draw { c: byte, x: (col * gw) as u32, y: (row * gh) as u32 }];
                let scrolls = r1 >= old(self).rows();
                &&& final(self).cursor() == (c1, if scrolls { (old(self).rows() - 1) as u32 } else { r1 as u32 })
                &&& ops@ == (if drawn { draw } else { Seq::empty() }) + (if scrolls { seq![ConOp::Scroll] } else { Seq::empty() })
            }),
    {
        let mut ops: Vec<ConOp> = Vec::new();
        let cols = self.text_cols();
        let rows = self.text_rows();
        if byte == 10 {
            self.col = 0;
            self.row = self.row + 1;
        } else if byte == 13 {
            self.col = 0;
        } else {
            let c = self.col;
            let r = self.row;
            let gw = self.gw;
            let gh = self.gh;
            let w = self.fb.width;
            let h = self.fb.height;
            proof {
                assert(c * gw <= w) by (nonlinear_arith)
                    requires
                        c == 0 || c < w / gw,
                        gw > 0,
                ;
                assert(r * gh <= h) by (nonlinear_arith)
                    requires
                        r < h / gh,
                        gh > 0,
                ;
            }
            ops.push(ConOp::Draw { c: byte, x: c * gw, y: r * gh });
            self.col = self.col + 1;
            if self.col >= cols {
                self.col = 0;
                self.row = self.row + 1;
            }
        }
        if self.row >= rows {
            ops.push(ConOp::Scroll);
            self.row = rows - 1;
        }
        ops
    }

    /// Clears the screen to `BG` and puts the cursor at the top left.
    pub fn clear(&mut self, mem: &mut Vec<u8>)
        requires
            old(self).wf(),
            fb_fits(old(self).framebuffer(), old(mem)@.len() as int),
            old(mem)@.len() <= u64::MAX,
        ensures
            final(self).wf(),
            final(self).cursor() == (0u32, 0u32),
            final(self).framebuffer() == old(self).framebuffer(),
            final(self).spec_present() == old(self).spec_present(),
            final(self).glyph_size() == old(self).glyph_size(),
            final(mem)@ == fill_spec(
                old(self).framebuffer(),
                old(mem)@,
                0,
                0,
                old(self).framebuffer().width,
                old(self).framebuffer().height,
                BG,
            ),
    {
        let w = self.fb.width;
        let h = self.fb.height;
        fill_rect(&self.fb, mem, 0, 0, w, h, BG);
        self.col = 0;
        self.row = 0;
    }

    /// Scrolls the screen up by one text line, as `scroll_spec` says.
    pub fn scroll(&self, mem: &mut Vec<u8>)
        requires
            self.wf(),
            fb_fits(self.framebuffer(), old(mem)@.len() as int),
            old(mem)@.len() <= u64::MAX,
        ensures
            final(mem)@.len() == old(mem)@.len(),
            final(mem)@ == scroll_spec(self.framebuffer(), self.glyph_size().1, self.rows(), old(mem)@),
    {
        let gh = self.gh;
        let height = self.fb.height;
        let pitch = self.fb.pitch;
        let rows = self.text_rows();
        proof {
            assert(gh <= height) by (nonlinear_arith)
                requires
                    height / gh >= 1,
                    gh > 0,
            ;
            assert(gh * pitch <= height * pitch) by (nonlinear_arith)
                requires
                    gh <= height,
            ;
            assert((rows - 1) * gh <= height) by (nonlinear_arith)
                requires
                    rows == height / gh,
                    rows >= 1,
                    gh > 0,
            ;
        }
        assert(mem@.len() == mem.len());
        assert(height * pitch <= mem.len());
        let line = (gh as usize) * (pitch as usize);
        let total = (height as usize) * (pitch as usize);
        let ghost m0 = mem@;
        let mut i: usize = 0;
        while i < total - line
            invariant
                line <= total,
                total <= m0.len(),
                i <= total - line,
                mem@.len() == m0.len(),
                forall|k: int| 0 <= k < i ==> mem@[k] == m0[k + line],
                forall|k: int| i <= k < m0.len() ==> mem@[k] == m0[k],
            decreases total - line - i,
        {
            let b = mem[i + line];
            mem.set(i, b);
            i = i + 1;
        }
        assert(mem@ =~= m0.subrange(line as int, total as int) + m0.subrange(total - line, m0.len() as int));
        let top = (rows - 1) * gh;
        let w = self.fb.width;
        fill_rect(&self.fb, mem, 0, top, w, height - top, BG);
    }
}

} // verus!
