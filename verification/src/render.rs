//! Software rendering: a pixel buffer of ARGB colours, and the hold counters of
//! a level meter.
use vstd::prelude::*;

verus! {

/// Selects the rendering backend to use.
#[derive(Debug, Clone, Copy, PartialEq, Eq, Structural)]
pub enum RendererBackend {
    /// Software (CPU) rendering.
    Cpu,
    /// GPU-accelerated rendering.
    Gpu,
}

/// Opaque black, the colour of a fresh render target.
pub const OPAQUE_BLACK: u32 = 0xFF000000;

/// A software render target: `width * height` ARGB pixels, row by row.
#[derive(Debug, Clone)]
pub struct RenderTarget {
    pub pixels: Vec<u32>,
    pub width: u32,
    pub height: u32,
}

impl RenderTarget {
    /// One pixel per position, and the pixel count fits in a `u32`.
    pub open spec fn wf(&self) -> bool {
        &&& self.width * self.height <= u32::MAX
        &&& self.pixels@.len() == self.width * self.height
    }

    /// The index of pixel (x, y) in `pixels`.
    pub open spec fn index_of(&self, x: int, y: int) -> int {
        y * self.width + x
    }

    /// A `width` by `height` target filled with opaque black.  The pixel count
    /// must fit in a `u32`.
    pub fn new(width: u32, height: u32) -> (t: RenderTarget)
        requires
            width * height <= u32::MAX,
        ensures
            t.wf(),
            t.width == width,
            t.height == height,
            forall|i: int| 0 <= i < t.pixels@.len() ==> #[trigger] t.pixels@[i] == OPAQUE_BLACK,
    {
        let count = width * height;
        let mut pixels: Vec<u32> = Vec::new();
        let mut i: u32 = 0;
        while i < count
            invariant
                i <= count,
                pixels@.len() == i,
                forall|k: int| 0 <= k < i ==> #[trigger] pixels@[k] == OPAQUE_BLACK,
            decreases count - i,
        {
            pixels.push(OPAQUE_BLACK);
            i += 1;
        }
        RenderTarget { pixels, width, height }
    }

    /// Sets every pixel to `color`.
    pub fn clear(&mut self, color: u32)
        ensures
            final(self).width == old(self).width,
            final(self).height == old(self).height,
            final(self).pixels@.len() == old(self).pixels@.len(),
            forall|i: int| 0 <= i < final(self).pixels@.len() ==> #[trigger] final(self).pixels@[i] == color,
    {
        let n = self.pixels.len();
        let mut i: usize = 0;
        while i < n
            invariant
                n == self.pixels@.len(),
                i <= n,
                self.width == old(self).width,
                self.height == old(self).height,
                forall|k: int| 0 <= k < i ==> #[trigger] self.pixels@[k] == color,
            decreases n - i,
        {
            self.pixels.set(i, color);
            i += 1;
        }
    }

    /// Sets pixel (x, y) to `color`; a position outside the target is ignored.
    /// The buffer may hold more than `width * height` pixels; the extra ones
    /// are never touched.
    pub fn set_pixel(&mut self, x: u32, y: u32, color: u32)
        requires
            old(self).width * old(self).height <= u32::MAX,
            old(self).pixels@.len() >= old(self).width * old(self).height,
        ensures
            final(self).width == old(self).width,
            final(self).height == old(self).height,
            final(self).pixels@.len() == old(self).pixels@.len(),
            old(self).wf() ==> final(self).wf(),
            x < old(self).width && y < old(self).height ==> final(self).pixels@ == old(
                self,
            ).pixels@.update(old(self).index_of(x as int, y as int), color),
            !(x < old(self).width && y < old(self).height) ==> final(self).pixels@ == old(
                self,
            ).pixels@,
    {
        if x < self.width && y < self.height {
            proof {
                lemma_row_major_index(x as int, y as int, self.width as int, self.height as int);
            }
            let i = y * self.width + x;
            self.pixels.set(i as usize, color);
        }
    }

    /// Copies the rows of `src`, a target of the same width, into this one
    /// from row `row_offset` down; rows that fall below the target are
    /// ignored.
    pub fn paste_rows(&mut self, src: &RenderTarget, row_offset: u32)
        requires
            old(self).wf(),
            src.wf(),
            src.width == old(self).width,
        ensures
            final(self).wf(),
            final(self).width == old(self).width,
            final(self).height == old(self).height,
            forall|i: int|
                0 <= i < final(self).pixels@.len() ==> #[trigger] final(self).pixels@[i] == if row_offset
                    <= i / (old(self).width as int) < row_offset + src.height {
                    src.pixels@[i - row_offset * old(self).width]
                } else {
                    old(self).pixels@[i]
                },
    {
        let w = self.width;
        let h = self.height;
        if w == 0 || row_offset >= h {
            proof {
                assert forall|i: int| 0 <= i < self.pixels@.len() implies #[trigger] self.pixels@[i]
                    == if row_offset <= i / (w as int) < row_offset + src.height {
                    src.pixels@[i - row_offset * w]
                } else {
                    self.pixels@[i]
                } by {
                    if w == 0 {
                        assert(w * h == 0) by (nonlinear_arith)
                            requires
                                w == 0,
                        ;
                    } else {
                        lemma_index_split(w as int, i);
                        if i / (w as int) >= h {
                            vstd::arithmetic::mul::lemma_mul_inequality(h as int, i / (w as int), w as int);
                        }
                    }
                }
            }
            return;
        }
        let room = h - row_offset;
        let rows = if src.height < room {
            src.height
        } else {
            room
        };
        let ghost before = self.pixels@;
        let mut y: u32 = 0;
        while y < rows
            invariant
                self.wf(),
                src.wf(),
                self.width == w,
                self.height == h,
                src.width == w,
                w > 0,
                row_offset < h,
                room == h - row_offset,
                rows == (if src.height < room { src.height } else { room }),
                y <= rows,
                before.len() == self.pixels@.len(),
                forall|i: int|
                    0 <= i < self.pixels@.len() ==> #[trigger] self.pixels@[i] == if row_offset <= i
                        / (w as int) < row_offset + y {
                        src.pixels@[i - row_offset * w]
                    } else {
                        before[i]
                    },
            decreases rows - y,
        {
            let mut x: u32 = 0;
            while x < w
                invariant
                    self.wf(),
                    src.wf(),
                    self.width == w,
                    self.height == h,
                    src.width == w,
                    w > 0,
                    row_offset < h,
                    room == h - row_offset,
                    rows == (if src.height < room { src.height } else { room }),
                    y < rows,
                    x <= w,
                    before.len() == self.pixels@.len(),
                    forall|i: int|
                        0 <= i < self.pixels@.len() ==> #[trigger] self.pixels@[i] == if (row_offset
                            <= i / (w as int) < row_offset + y) || (i / (w as int) == row_offset + y
                            && i % (w as int) < x) {
                            src.pixels@[i - row_offset * w]
                        } else {
                            before[i]
                        },
                decreases w - x,
            {
                proof {
                    lemma_row_major_index(x as int, y as int, w as int, src.height as int);
                }
                let value = src.pixels[(y * w + x) as usize];
                let ghost prev = self.pixels@;
                assert(x < self.width && y + row_offset < self.height);
                self.set_pixel(x, y + row_offset, value);
                proof {
                    let j = (y + row_offset) * w + x;
                    lemma_coords(w as int, x as int, (y + row_offset) as int);
                    lemma_row_major_index(x as int, (y + row_offset) as int, w as int, h as int);
                    assert(self.pixels@ == prev.update(j, value));
                    assert(j - row_offset * w == y * w + x) by (nonlinear_arith)
                        requires
                            j == (y + row_offset) * w + x,
                    ;
                    assert forall|i: int| 0 <= i < self.pixels@.len() implies #[trigger] self.pixels@[i]
                        == if (row_offset <= i / (w as int) < row_offset + y) || (i / (w as int)
                        == row_offset + y && i % (w as int) < x + 1) {
                        src.pixels@[i - row_offset * w]
                    } else {
                        before[i]
                    } by {
                        lemma_index_split(w as int, i);
                        if i == j {
                        } else {
                            assert(self.pixels@[i] == prev[i]);
                        }
                    }
                }
                x += 1;
            }
            proof {
                assert forall|i: int| 0 <= i < self.pixels@.len() implies #[trigger] self.pixels@[i]
                    == if row_offset <= i / (w as int) < row_offset + y + 1 {
                    src.pixels@[i - row_offset * w]
                } else {
                    before[i]
                } by {
                    lemma_index_split(w as int, i);
                }
            }
            y += 1;
        }
        proof {
            assert forall|i: int| 0 <= i < self.pixels@.len() implies #[trigger] self.pixels@[i]
                == if row_offset <= i / (w as int) < row_offset + src.height {
                src.pixels@[i - row_offset * w]
            } else {
                before[i]
            } by {
                lemma_index_split(w as int, i);
                if i / (w as int) >= h {
                    vstd::arithmetic::mul::lemma_mul_inequality(h as int, i / (w as int), w as int);
                }
            }
        }
    }

    /// Fills the rectangle of columns `x0..x1` and rows `y0..y1` with `color`;
    /// the part outside the target is ignored.  Rows are filled top to bottom,
    /// each from left to right.
    pub fn fill_rect(&mut self, x0: u32, x1: u32, y0: u32, y1: u32, color: u32)
        requires
            old(self).wf(),
        ensures
            final(self).wf(),
            final(self).width == old(self).width,
            final(self).height == old(self).height,
            forall|i: int|
                0 <= i < final(self).pixels@.len() ==> #[trigger] final(self).pixels@[i] == if in_rect(
                    old(self).width,
                    i,
                    x0,
                    x1,
                    y0,
                    y1,
                ) {
                    color
                } else {
                    old(self).pixels@[i]
                },
    {
        let w = self.width;
        let h = self.height;
        let xe = if x1 < w {
            x1
        } else {
            w
        };
        let ye = if y1 < h {
            y1
        } else {
            h
        };
        let ghost before = self.pixels@;
        let mut y = y0;
        while y < ye
            invariant
                self.wf(),
                self.width == w,
                self.height == h,
                before.len() == self.pixels@.len(),
                xe <= w,
                xe == (if x1 < w { x1 } else { w }),
                ye == (if y1 < h { y1 } else { h }),
                ye <= h,
                ye <= y1,
                xe <= x1,
                y0 <= y,
                y == y0 || y <= ye,
                forall|i: int|
                    0 <= i < self.pixels@.len() ==> #[trigger] self.pixels@[i] == if in_rect(
                        w,
                        i,
                        x0,
                        x1,
                        y0,
                        y,
                    ) {
                        color
                    } else {
                        before[i]
                    },
            decreases ye - y,
        {
            let mut x = x0;
            while x < xe
                invariant
                    self.wf(),
                    self.width == w,
                    self.height == h,
                    before.len() == self.pixels@.len(),
                    xe <= w,
                    xe <= x1,
                    xe == (if x1 < w { x1 } else { w }),
                    y < ye,
                    ye <= h,
                    y0 <= y,
                    x0 <= x,
                    x == x0 || x <= xe,
                    forall|i: int|
                        0 <= i < self.pixels@.len() ==> #[trigger] self.pixels@[i] == if in_rect(
                            w,
                            i,
                            x0,
                            x1,
                            y0,
                            y,
                        ) || in_rect(w, i, x0, x, y, (y + 1) as u32) {
                            color
                        } else {
                            before[i]
                        },
                decreases xe - x,
            {
                let ghost prev = self.pixels@;
                assert(x < self.width && y < self.height);
                self.set_pixel(x, y, color);
                assert(self.pixels@ == prev.update(self.index_of(x as int, y as int), color));
                assert(self.pixels@ == prev.update(y * w + x, color));
                proof {
                    lemma_coords(w as int, x as int, y as int);
                    lemma_row_major_index(x as int, y as int, w as int, h as int);
                    assert forall|i: int| 0 <= i < self.pixels@.len() implies #[trigger] self.pixels@[i]
                        == if in_rect(w, i, x0, x1, y0, y) || in_rect(w, i, x0, (x + 1) as u32, y, (y + 1) as u32) {
                        color
                    } else {
                        before[i]
                    } by {
                        lemma_index_split(w as int, i);
                        let j = y * w + x;
                        if i == j {
                        } else {
                            assert(self.pixels@[i] == prev[i]);
                        }
                    }
                }
                x += 1;
            }
            proof {
                assert forall|i: int| 0 <= i < self.pixels@.len() implies #[trigger] self.pixels@[i]
                    == if in_rect(w, i, x0, x1, y0, (y + 1) as u32) {
                    color
                } else {
                    before[i]
                } by {
                    if w == 0 {
                        assert(w * h == 0) by (nonlinear_arith)
                            requires
                                w == 0,
                        ;
                    } else {
                        lemma_index_split(w as int, i);
                        let col = i % (w as int);
                        let row = i / (w as int);
                        assert(in_rect(w, i, x0, x1, y0, (y + 1) as u32) == (in_rect(w, i, x0, x1, y0, y)
                            || in_rect(w, i, x0, x, y, (y + 1) as u32))) by {
                            if row == y && x0 <= col {
                                assert(col < x1 <==> col < x);
                            }
                        }
                    }
                }
            }
            y += 1;
        }
        proof {
            assert forall|i: int| 0 <= i < self.pixels@.len() implies #[trigger] self.pixels@[i]
                == if in_rect(w, i, x0, x1, y0, y1) {
                color
            } else {
                before[i]
            } by {
                if w == 0 {
                    assert(w * h == 0) by (nonlinear_arith)
                        requires
                            w == 0,
                    ;
                } else {
                    lemma_index_split(w as int, i);
                    assert(i / (w as int) < h) by {
                        if i / (w as int) >= h {
                            vstd::arithmetic::mul::lemma_mul_inequality(h as int, i / (w as int), w as int);
                        }
                    }
                }
            }
        }
    }
}

/// Pixel `i` of a target `width` pixels wide lies in the rectangle of columns
/// `x0..x1` and rows `y0..y1`.
pub open spec fn in_rect(width: u32, i: int, x0: u32, x1: u32, y0: u32, y1: u32) -> bool {
    &&& x0 <= i % (width as int) < x1
    &&& y0 <= i / (width as int) < y1
}

/// Row-major coordinates: the index of (x, y) has column x and row y, and
/// every index is rebuilt from its row and column.
pub proof fn lemma_coords(w: int, x: int, y: int)
    requires
        0 <= x < w,
        0 <= y,
    ensures
        (y * w + x) / w == y,
        (y * w + x) % w == x,
{
    vstd::arithmetic::div_mod::lemma_fundamental_div_mod_converse(y * w + x, w, y, x);
}

/// Every non-negative index is `row * w + column`.
pub proof fn lemma_index_split(w: int, i: int)
    requires
        w > 0,
        i >= 0,
    ensures
        i == (i / w) * w + i % w,
        0 <= i % w < w,
        i / w >= 0,
{
    vstd::arithmetic::div_mod::lemma_fundamental_div_mod(i, w);
    vstd::arithmetic::mul::lemma_mul_is_commutative(w, i / w);
    vstd::arithmetic::div_mod::lemma_mod_pos_bound(i, w);
    vstd::arithmetic::div_mod::lemma_div_pos_is_pos(i, w);
}

/// In a `w` by `h` grid, position (x, y) has a row-major index below `w * h`.
pub proof fn lemma_row_major_index(x: int, y: int, w: int, h: int)
    requires
        0 <= x < w,
        0 <= y < h,
    ensures
        0 <= y * w + x < w * h,
{
    assert(y * w + x < w * h) by (nonlinear_arith)
        requires
            0 <= x < w,
            0 <= y < h,
    ;
    assert(0 <= y * w) by (nonlinear_arith)
        requires
            0 <= y,
            0 <= w,
    ;
}

/// The colour of a meter's RMS bar.
pub const METER_RMS_COLOR: u32 = 0xFF00CC44;

/// The colour of a meter's peak line.
pub const METER_PEAK_COLOR: u32 = 0xFFFFDD00;

/// The colour of a meter's peak-hold line.
pub const METER_HOLD_COLOR: u32 = 0xFFFF2200;

/// The heights, in pixels, of one channel's meter: the RMS bar, the peak line
/// and the peak-hold line.
#[derive(Debug, Clone, Copy, PartialEq, Eq, Structural)]
pub struct BarHeights {
    pub rms: u32,
    pub peak: u32,
    pub hold: u32,
}

/// `a - b`, or 0 when `b` exceeds `a`.
pub open spec fn saturating_sub(a: u32, b: u32) -> int {
    if b <= a {
        a - b
    } else {
        0
    }
}

/// The width of each channel's column: the target's width shared out between
/// the channels, at least one pixel.
pub open spec fn meter_bar_width(width: u32, channels: nat) -> int {
    if width as int / channels as int >= 1 {
        width as int / channels as int
    } else {
        1
    }
}

/// The colour a meter puts on row `row` of a channel's column, if any: the
/// hold line over the peak line over the RMS bar that rises from the bottom.
pub open spec fn meter_color(height: u32, bar: BarHeights, row: int) -> Option<u32> {
    if bar.hold > 0 && row == saturating_sub(height, bar.hold) {
        Some(METER_HOLD_COLOR)
    } else if bar.peak > 0 && row == saturating_sub(height, bar.peak) {
        Some(METER_PEAK_COLOR)
    } else if saturating_sub(height, bar.rms) <= row < height {
        Some(METER_RMS_COLOR)
    } else {
        None
    }
}

/// The pixel at index `i` after drawing meter bars `bars` over `old_pixel`:
/// the column belongs to the channel `column / bar width`.
pub open spec fn meter_pixel(
    width: u32,
    height: u32,
    bars: Seq<BarHeights>,
    channels_drawn: int,
    i: int,
    old_pixel: u32,
) -> u32 {
    let c = (i % (width as int)) / meter_bar_width(width, bars.len());
    if c < channels_drawn {
        match meter_color(height, bars[c], i / (width as int)) {
            Some(color) => color,
            None => old_pixel,
        }
    } else {
        old_pixel
    }
}

/// The layers of a meter, pixel by pixel: in a channel's column, the row of
/// its peak-hold line is the hold colour whatever the peak and RMS are; the
/// row of its peak line, when it is not the hold row, is the peak colour;
/// other rows inside the RMS bar are the RMS colour; every other pixel, and
/// every pixel right of the last channel's column, keeps its colour.
pub proof fn lemma_meter_layers(
    width: u32,
    height: u32,
    bars: Seq<BarHeights>,
    i: int,
    old_pixel: u32,
)
    requires
        width > 0,
        bars.len() > 0,
        0 <= i,
    ensures
        ({
            let c = (i % (width as int)) / meter_bar_width(width, bars.len());
            let row = i / (width as int);
            let px = meter_pixel(width, height, bars, bars.len() as int, i, old_pixel);
            let on_hold = bars[c].hold > 0 && row == saturating_sub(height, bars[c].hold);
            let on_peak = bars[c].peak > 0 && row == saturating_sub(height, bars[c].peak);
            let in_rms = saturating_sub(height, bars[c].rms) <= row < height;
            &&& c < bars.len() && on_hold ==> px == METER_HOLD_COLOR
            &&& c < bars.len() && !on_hold && on_peak ==> px == METER_PEAK_COLOR
            &&& c < bars.len() && !on_hold && !on_peak && in_rms ==> px == METER_RMS_COLOR
            &&& c < bars.len() && !on_hold && !on_peak && !in_rms ==> px == old_pixel
            &&& c >= bars.len() ==> px == old_pixel
        }),
{
}

/// A column `col` of a target `w` wide lies in channel `c`'s span
/// `c * bw ..= min(c * bw + bw - 1, w - 1)` exactly when `col / bw == c`.
proof fn lemma_meter_column(w: int, bw: int, c: int, col: int)
    requires
        bw >= 1,
        c >= 0,
        0 <= col < w,
    ensures
        (c * bw <= col < c * bw + bw) <==> col / bw == c,
{
    vstd::arithmetic::div_mod::lemma_fundamental_div_mod(col, bw);
    vstd::arithmetic::div_mod::lemma_mod_pos_bound(col, bw);
    vstd::arithmetic::mul::lemma_mul_is_commutative(bw, col / bw);
    if c * bw <= col < c * bw + bw {
        vstd::arithmetic::div_mod::lemma_fundamental_div_mod_converse(col, bw, c, col - c * bw);
    }
}

/// The peak-hold bookkeeping of a level meter over one or more channels.
pub struct LevelMeter {
    pub channels: usize,
    /// How many audio samples a peak is held for before it may fall.
    pub peak_hold_samples: u32,
    hold_counter: Vec<u32>,
}

impl LevelMeter {
    /// The number of channels.
    pub closed spec fn channel_count(&self) -> usize {
        self.channels
    }

    /// How many samples a new peak is held for.
    pub closed spec fn hold_duration(&self) -> u32 {
        self.peak_hold_samples
    }

    /// The samples left on each channel's hold.
    pub closed spec fn holds(&self) -> Seq<u32> {
        self.hold_counter@
    }

    /// One hold counter per channel.
    pub closed spec fn wf(&self) -> bool {
        self.holds().len() == self.channels
    }

    /// A meter over `channels` channels with every hold counter at 0.
    pub fn new(channels: usize, peak_hold_samples: u32) -> (m: LevelMeter)
        ensures
            m.wf(),
            m.channel_count() == channels,
            m.hold_duration() == peak_hold_samples,
            forall|c: int| 0 <= c < channels ==> #[trigger] m.holds()[c] == 0,
    {
        let mut hold_counter: Vec<u32> = Vec::new();
        let mut i: usize = 0;
        while i < channels
            invariant
                i <= channels,
                hold_counter@.len() == i,
                forall|k: int| 0 <= k < i ==> #[trigger] hold_counter@[k] == 0,
            decreases channels - i,
        {
            hold_counter.push(0);
            i += 1;
        }
        LevelMeter { channels, peak_hold_samples, hold_counter }
    }

    /// Draws one vertical meter per channel, side by side: a green RMS bar
    /// rising from the bottom, a yellow peak line and a red peak-hold line,
    /// from the pixel heights in `bars`.  Nothing is drawn when there are no
    /// channels or the target is empty.
    pub fn render_bars(bars: &Vec<BarHeights>, target: &mut RenderTarget)
        requires
            old(target).wf(),
            bars@.len() <= u32::MAX,
        ensures
            final(target).wf(),
            final(target).width == old(target).width,
            final(target).height == old(target).height,
            (bars@.len() == 0 || old(target).width == 0 || old(target).height == 0)
                ==> final(target).pixels@ == old(target).pixels@,
            !(bars@.len() == 0 || old(target).width == 0 || old(target).height == 0)
                ==> forall|i: int| 0 <= i < final(target).pixels@.len()
                ==> #[trigger] final(target).pixels@[i] == meter_pixel(
                    old(target).width,
                    old(target).height,
                    bars@,
                    bars@.len() as int,
                    i,
                    old(target).pixels@[i],
                ),
            old(target).width > 0 ==> forall|i: int|
                0 <= i < final(target).pixels@.len() && #[trigger] ((i % (old(target).width as int))
                    / meter_bar_width(old(target).width, bars@.len())) < bars@.len()
                    && bars@[(i % (old(target).width as int)) / meter_bar_width(
                    old(target).width,
                    bars@.len(),
                )].hold > 0 && i / (old(target).width as int) == saturating_sub(
                    old(target).height,
                    bars@[(i % (old(target).width as int)) / meter_bar_width(
                        old(target).width,
                        bars@.len(),
                    )].hold,
                ) ==> final(target).pixels@[i] == METER_HOLD_COLOR,
    {
        let ch = bars.len();
        let w = target.width;
        let h = target.height;
        if ch == 0 || w == 0 || h == 0 {
            proof {
                if h == 0 {
                    assert(w * h == 0) by (nonlinear_arith)
                        requires
                            h == 0,
                    ;
                }
            }
            return;
        }
        let per = w as usize / ch;
        let bw: u32 = if per >= 1 {
            per as u32
        } else {
            1
        };
        let ghost before = target.pixels@;
        assert(bw == meter_bar_width(w, ch as nat));
        let mut c: usize = 0;
        while c < ch
            invariant
                target.wf(),
                target.width == w,
                target.height == h,
                w > 0,
                h > 0,
                ch == bars@.len(),
                ch <= u32::MAX,
                bw == meter_bar_width(w, ch as nat),
                c <= ch,
                before.len() == target.pixels@.len(),
                forall|i: int|
                    0 <= i < target.pixels@.len() ==> #[trigger] target.pixels@[i] == meter_pixel(
                        w,
                        h,
                        bars@,
                        c as int,
                        i,
                        before[i],
                    ),
            decreases ch - c,
        {
            proof {
                if w as int / ch as int >= 1 {
                    assert(c * bw + bw <= w) by (nonlinear_arith)
                        requires
                            c < ch,
                            bw == w as int / ch as int,
                            ch > 0,
                    {
                        vstd::arithmetic::div_mod::lemma_fundamental_div_mod(w as int, ch as int);
                        assert(c * bw + bw == (c + 1) * bw);
                        assert((c + 1) * bw <= ch * bw);
                    }
                } else {
                    assert(bw == 1);
                }
                assert(c * bw <= u32::MAX);
            }
            let x_start = (c as u32) * bw;
            let x_end = if x_start + bw - 1 < w - 1 {
                x_start + bw - 1
            } else {
                w - 1
            };
            let bar = bars[c];
            let ghost at_start = target.pixels@;
            let rms_top = if bar.rms < h {
                h - bar.rms
            } else {
                0
            };
            target.fill_rect(x_start, x_end + 1, rms_top, h, METER_RMS_COLOR);
            let ghost after_rms = target.pixels@;
            if bar.peak > 0 {
                let peak_y = if bar.peak <= h {
                    h - bar.peak
                } else {
                    0
                };
                target.fill_rect(x_start, x_end + 1, peak_y, peak_y + 1, METER_PEAK_COLOR);
            }
            let ghost after_peak = target.pixels@;
            if bar.hold > 0 {
                let hold_y = if bar.hold <= h {
                    h - bar.hold
                } else {
                    0
                };
                target.fill_rect(x_start, x_end + 1, hold_y, hold_y + 1, METER_HOLD_COLOR);
            }
            proof {
                assert forall|i: int| 0 <= i < target.pixels@.len() implies #[trigger] target.pixels@[i]
                    == meter_pixel(w, h, bars@, c + 1, i, before[i]) by {
                    lemma_index_split(w as int, i);
                    let col = i % (w as int);
                    lemma_meter_column(w as int, bw as int, c as int, col);
                    assert(at_start[i] == meter_pixel(w, h, bars@, c as int, i, before[i]));
                    assert(after_rms[i] == if in_rect(w, i, x_start, (x_end + 1) as u32, rms_top, h) {
                        METER_RMS_COLOR
                    } else {
                        at_start[i]
                    });
                }
            }
            c += 1;
        }
        proof {
            assert forall|i: int|
                0 <= i < target.pixels@.len() && #[trigger] ((i % (w as int)) / meter_bar_width(
                    w,
                    bars@.len(),
                )) < bars@.len() && bars@[(i % (w as int)) / meter_bar_width(w, bars@.len())].hold
                    > 0 && i / (w as int) == saturating_sub(
                    h,
                    bars@[(i % (w as int)) / meter_bar_width(w, bars@.len())].hold,
                ) implies target.pixels@[i] == METER_HOLD_COLOR by {
                lemma_meter_layers(w, h, bars@, i, before[i]);
            }
        }
    }

    /// The samples left on the hold of `channel`.
    pub fn hold_remaining(&self, channel: usize) -> (n: u32)
        requires
            self.wf(),
            channel < self.channel_count(),
        ensures
            n == self.holds()[channel as int],
    {
        self.hold_counter[channel]
    }

    /// One update of the peak holds, after `elapsed[c]` samples of channel
    /// `c` with peak `peaks[c]`.  A channel whose peak reached its held level
    /// holds that peak for `hold_duration` samples.  Any other channel counts
    /// the update's samples off its hold and keeps its held level; once the
    /// hold runs out, the held level falls to the current peak.
    pub fn advance_holds<V: Copy>(
        &mut self,
        held: &mut Vec<V>,
        peaks: &Vec<V>,
        reached: &Vec<bool>,
        elapsed: &Vec<u32>,
    )
        requires
            old(self).wf(),
            old(held)@.len() == old(self).channel_count(),
            peaks@.len() == old(self).channel_count(),
            reached@.len() == old(self).channel_count(),
            elapsed@.len() == old(self).channel_count(),
        ensures
            final(self).wf(),
            final(self).channel_count() == old(self).channel_count(),
            final(self).hold_duration() == old(self).hold_duration(),
            final(held)@.len() == old(held)@.len(),
            forall|c: int|
                0 <= c < old(self).channel_count() ==> #[trigger] final(self).holds()[c] == if reached@[c] {
                    old(self).hold_duration()
                } else if old(self).holds()[c] > elapsed@[c] {
                    (old(self).holds()[c] - elapsed@[c]) as u32
                } else {
                    0
                },
            forall|c: int|
                0 <= c < old(self).channel_count() ==> #[trigger] final(held)@[c] == if reached@[c] {
                    peaks@[c]
                } else if old(self).holds()[c] > elapsed@[c] {
                    old(held)@[c]
                } else {
                    peaks@[c]
                },
    {
        let n = self.channels;
        let mut c: usize = 0;
        while c < n
            invariant
                n == self.channels,
                self.channels == old(self).channels,
                self.peak_hold_samples == old(self).peak_hold_samples,
                self.hold_counter@.len() == n,
                held@.len() == n,
                peaks@.len() == n,
                reached@.len() == n,
                elapsed@.len() == n,
                c <= n,
                forall|k: int|
                    0 <= k < c ==> #[trigger] self.hold_counter@[k] == if reached@[k] {
                        old(self).peak_hold_samples
                    } else if old(self).holds()[k] > elapsed@[k] {
                        (old(self).holds()[k] - elapsed@[k]) as u32
                    } else {
                        0
                    },
                forall|k: int|
                    0 <= k < c ==> #[trigger] held@[k] == if reached@[k] {
                        peaks@[k]
                    } else if old(self).holds()[k] > elapsed@[k] {
                        old(held)@[k]
                    } else {
                        peaks@[k]
                    },
                forall|k: int| c <= k < n ==> #[trigger] self.hold_counter@[k] == old(self).holds()[k],
                forall|k: int| c <= k < n ==> #[trigger] held@[k] == old(held)@[k],
            decreases n - c,
        {
            if reached[c] {
                self.hold_counter.set(c, self.peak_hold_samples);
                held.set(c, peaks[c]);
            } else if self.hold_counter[c] > elapsed[c] {
                let v = self.hold_counter[c] - elapsed[c];
                self.hold_counter.set(c, v);
            } else {
                self.hold_counter.set(c, 0);
                held.set(c, peaks[c]);
            }
            c += 1;
        }
    }
}

} // verus!
