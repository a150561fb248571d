use vstd::prelude::*;
use crate::api::KlineData;
use crate::price::{price_units, units_or_zero};

verus! {

/// Open, high, low and close of one candle, in fixed-point price units.
#[derive(Clone, Copy, Debug, PartialEq, Eq, Structural)]
pub struct Ohlc {
    pub open: u64,
    pub high: u64,
    pub low: u64,
    pub close: u64,
}

/// What a chart cell draws: the thin high–low line or the thick open–close bar.
#[derive(Clone, Copy, Debug, PartialEq, Eq, Structural)]
pub enum Glyph {
    Wick,
    Body,
}

/// Colour category of a candle: rising (close at or above open) or falling.
#[derive(Clone, Copy, Debug, PartialEq, Eq, Structural)]
pub enum Trend {
    Up,
    Down,
}

/// One styled character of the plot area; row 0 is the top.
#[derive(Clone, Copy, Debug, PartialEq, Eq, Structural)]
pub struct Cell {
    pub col: u16,
    pub row: u16,
    pub glyph: Glyph,
    pub trend: Trend,
}

pub open spec fn trend_of(c: Ohlc) -> Trend {
    if c.close >= c.open {
        Trend::Up
    } else {
        Trend::Down
    }
}

/// Lowest `low` of a non-empty window.
pub open spec fn min_low(s: Seq<Ohlc>) -> int
    decreases s.len(),
{
    if s.len() == 0 {
        0
    } else if s.len() == 1 {
        s[0].low as int
    } else {
        let m = min_low(s.drop_last());
        if (s.last().low as int) < m {
            s.last().low as int
        } else {
            m
        }
    }
}

/// Highest `high` of a non-empty window.
pub open spec fn max_high(s: Seq<Ohlc>) -> int
    decreases s.len(),
{
    if s.len() == 0 {
        0
    } else if s.len() == 1 {
        s[0].high as int
    } else {
        let m = max_high(s.drop_last());
        if (s.last().high as int) > m {
            s.last().high as int
        } else {
            m
        }
    }
}

/// Size of the plot area inside a one-cell border.
pub open spec fn inner(d: int) -> int {
    if d >= 2 {
        d - 2
    } else {
        0
    }
}

/// Row of a price: `max` maps to the top row and the scale spans `h` rows;
/// a price above `max` lies above the plot (row -1, dropped), and a flat (or
/// inverted) range puts every price on the middle row.
pub open spec fn row_of(v: int, min: int, max: int, h: int) -> int {
    if max <= min {
        h / 2
    } else if v > max {
        -1
    } else {
        (max - v) * h / (max - min)
    }
}

/// Column of the candle at index `i` out of `n`, spread over `w` columns.
pub open spec fn col_of(i: int, n: int, w: int) -> int {
    i * w / n
}

/// Cells of one vertical segment between rows `a` and `b` inclusive, keeping only
/// the rows in `[0, h)`, from the top down.
pub open spec fn span(col: int, a: int, b: int, h: int, glyph: Glyph, trend: Trend) -> Seq<Cell> {
    let lo = if a <= b {
        a
    } else {
        b
    };
    let hi = if a <= b {
        b
    } else {
        a
    };
    let start = if lo < 0 {
        0
    } else {
        lo
    };
    let top = if hi < h {
        hi
    } else {
        h - 1
    };
    let count = if start > top {
        0
    } else {
        top - start + 1
    };
    Seq::new(count as nat, |j: int| Cell { col: col as u16, row: (start + j) as u16, glyph, trend })
}

/// The wick cells of one candle, then its body cells drawn over them.
pub open spec fn candle_cells(c: Ohlc, col: int, h: int, min: int, max: int) -> Seq<Cell> {
    let t = trend_of(c);
    span(
        col,
        row_of(c.high as int, min, max, h),
        row_of(c.low as int, min, max, h),
        h,
        Glyph::Wick,
        t,
    ) + span(
        col,
        row_of(c.open as int, min, max, h),
        row_of(c.close as int, min, max, h),
        h,
        Glyph::Body,
        t,
    )
}

/// Cells of the first `k` candles of `s`, oldest first.
pub open spec fn cells_upto(s: Seq<Ohlc>, k: int, w: int, h: int, min: int, max: int) -> Seq<Cell>
    decreases k,
{
    if k <= 0 {
        Seq::empty()
    } else {
        cells_upto(s, k - 1, w, h, min, max) + candle_cells(
            s[k - 1],
            col_of(k - 1, s.len() as int, w),
            h,
            min,
            max,
        )
    }
}

/// Everything the chart draws for a window on a `width` by `height` area
/// (border included); later cells overwrite earlier ones at the same place.
pub open spec fn chart_cells(s: Seq<Ohlc>, width: int, height: int) -> Seq<Cell> {
    if s.len() == 0 {
        Seq::empty()
    } else {
        cells_upto(s, s.len() as int, inner(width), inner(height), min_low(s), max_high(s))
    }
}

fn window_min_low(s: &Vec<Ohlc>) -> (r: u64)
    requires
        s@.len() > 0,
    ensures
        r as int == min_low(s@),
{
    let mut m: u64 = s[0].low;
    let mut i: usize = 1;
    assert(s@.take(1).drop_last() =~= Seq::<Ohlc>::empty());
    while i < s.len()
        invariant
            1 <= i <= s@.len(),
            m as int == min_low(s@.take(i as int)),
        decreases s@.len() - i,
    {
        assert(s@.take(i as int + 1).drop_last() =~= s@.take(i as int));
        if s[i].low < m {
            m = s[i].low;
        }
        i = i + 1;
    }
    assert(s@.take(s@.len() as int) =~= s@);
    m
}

fn window_max_high(s: &Vec<Ohlc>) -> (r: u64)
    requires
        s@.len() > 0,
    ensures
        r as int == max_high(s@),
{
    let mut m: u64 = s[0].high;
    let mut i: usize = 1;
    while i < s.len()
        invariant
            1 <= i <= s@.len(),
            m as int == max_high(s@.take(i as int)),
        decreases s@.len() - i,
    {
        assert(s@.take(i as int + 1).drop_last() =~= s@.take(i as int));
        if s[i].high > m {
            m = s[i].high;
        }
        i = i + 1;
    }
    assert(s@.take(s@.len() as int) =~= s@);
    m
}

fn price_row(v: u64, min: u64, max: u64, h: u16) -> (r: i128)
    ensures
        r as int == row_of(v as int, min as int, max as int, h as int),
        -1 <= r <= 0xffff_ffff_ffff_ffff_ffff_ffff,
{
    if max <= min {
        (h / 2) as i128
    } else if v > max {
        -1
    } else {
        let d: u128 = (max - v) as u128;
        let hh: u128 = h as u128;
        assert(d * hh <= 0xffff_ffff_ffff_ffffu128 * 0xffffu128) by (nonlinear_arith)
            requires
                d <= 0xffff_ffff_ffff_ffffu128,
                hh <= 0xffffu128,
        ;
        let range: u128 = (max - min) as u128;
        assert((d as int) * (hh as int) / (range as int) <= (d as int) * (hh as int)) by (nonlinear_arith)
            requires
                range >= 1,
                d >= 0,
                hh >= 0,
        ;
        (d * hh / range) as i128
    }
}

fn push_span(cells: &mut Vec<Cell>, col: u16, a: i128, b: i128, h: u16, glyph: Glyph, trend: Trend)
    requires
        -1 <= a <= 0xffff_ffff_ffff_ffff_ffff_ffff,
        -1 <= b <= 0xffff_ffff_ffff_ffff_ffff_ffff,
    ensures
        final(cells)@ == old(cells)@ + span(col as int, a as int, b as int, h as int, glyph, trend),
{
    let lo = if a <= b {
        a
    } else {
        b
    };
    let hi = if a <= b {
        b
    } else {
        a
    };
    let start: i128 = if lo < 0 {
        0
    } else {
        lo
    };
    let top: i128 = if hi < h as i128 {
        hi
    } else {
        h as i128 - 1
    };
    let ghost base = old(cells)@;
    let ghost full = span(col as int, a as int, b as int, h as int, glyph, trend);
    if start > top {
        assert(full =~= Seq::<Cell>::empty());
        assert(base + full =~= base);
        return;
    }
    let mut r: i128 = start;
    while r <= top
        invariant
            0 <= start <= r <= top + 1,
            top < h,
            full.len() == top - start + 1,
            full == span(col as int, a as int, b as int, h as int, glyph, trend),
            start == (if (if a <= b { a } else { b }) < 0 { 0 } else { if a <= b { a } else { b } }),
            cells@ == base + full.take(r - start),
        decreases top + 1 - r,
    {
        let cell = Cell { col, row: r as u16, glyph, trend };
        assert(full[r - start] == cell);
        assert(full.take(r + 1 - start) =~= full.take(r - start).push(cell));
        cells.push(cell);
        r = r + 1;
    }
    assert(full.take(r - start) =~= full);
}

/// The candle's prices read as fixed-point units; unreadable prices read as 0.
pub open spec fn ohlc_of(k: KlineData) -> Ohlc {
    Ohlc {
        open: units_or_zero(k.open@) as u64,
        high: units_or_zero(k.high@) as u64,
        low: units_or_zero(k.low@) as u64,
        close: units_or_zero(k.close@) as u64,
    }
}

/// Reads the prices of a candle window, oldest first.
pub fn candle_window(klines: &Vec<KlineData>) -> (r: Vec<Ohlc>)
    ensures
        r@.len() == klines@.len(),
        forall|i: int| 0 <= i < r@.len() ==> r@[i] == ohlc_of(#[trigger] klines@[i]),
{
    let mut r: Vec<Ohlc> = Vec::new();
    let mut i: usize = 0;
    while i < klines.len()
        invariant
            0 <= i <= klines@.len(),
            r@.len() == i,
            forall|j: int| 0 <= j < i ==> r@[j] == ohlc_of(#[trigger] klines@[j]),
        decreases klines@.len() - i,
    {
        let k = &klines[i];
        r.push(
            Ohlc {
                open: price_units(k.open.as_str()),
                high: price_units(k.high.as_str()),
                low: price_units(k.low.as_str()),
                close: price_units(k.close.as_str()),
            },
        );
        i = i + 1;
    }
    r
}

/// Lays a candle window out on a chart area of `width` by `height` cells, border
/// included: wick and body cells for each candle in order, with columns spread
/// evenly over the inner width and rows scaled between the window's lowest low
/// (bottom) and highest high (top). Rows outside the inner height are dropped;
/// an empty window gives no cells.
pub fn layout_candles(candles: &Vec<Ohlc>, width: u16, height: u16) -> (cells: Vec<Cell>)
    ensures
        cells@ == chart_cells(candles@, width as int, height as int),
{
    let mut cells: Vec<Cell> = Vec::new();
    let n = candles.len();
    if n == 0 {
        return cells;
    }
    let w: u16 = if width >= 2 {
        width - 2
    } else {
        0
    };
    let h: u16 = if height >= 2 {
        height - 2
    } else {
        0
    };
    let min = window_min_low(candles);
    let max = window_max_high(candles);
    let ghost s = candles@;
    let mut i: usize = 0;
    while i < n
        invariant
            n == s.len(),
            s == candles@,
            0 <= i <= n,
            w as int == inner(width as int),
            h as int == inner(height as int),
            min as int == min_low(s),
            max as int == max_high(s),
            cells@ == cells_upto(s, i as int, w as int, h as int, min as int, max as int),
        decreases n - i,
    {
        let c = candles[i];
        assert((i as int) * (w as int) <= (n as int) * (w as int)) by (nonlinear_arith)
            requires
                i < n,
                w >= 0,
        ;
        assert((i as int) * (w as int) / (n as int) <= w as int) by (nonlinear_arith)
            requires
                (i as int) * (w as int) <= (n as int) * (w as int),
                n > 0,
                w >= 0,
        ;
        assert((i as int) * (w as int) <= 0xffff_ffff_ffff_ffff * 0xffff) by (nonlinear_arith)
            requires
                (i as int) <= 0xffff_ffff_ffff_ffff,
                (w as int) <= 0xffff,
        ;
        let col: u16 = ((i as u128) * (w as u128) / (n as u128)) as u16;
        let trend = if c.close >= c.open {
            Trend::Up
        } else {
            Trend::Down
        };
        let hy = price_row(c.high, min, max, h);
        let ly = price_row(c.low, min, max, h);
        let oy = price_row(c.open, min, max, h);
        let cy = price_row(c.close, min, max, h);
        let ghost before = cells@;
        push_span(&mut cells, col, hy, ly, h, Glyph::Wick, trend);
        push_span(&mut cells, col, oy, cy, h, Glyph::Body, trend);
        assert(cells@ =~= before + candle_cells(c, col as int, h as int, min as int, max as int));
        i = i + 1;
    }
    cells
}

proof fn lemma_row_antitone(v1: int, v2: int, min: int, max: int, h: int)
    requires
        v1 <= v2,
        v1 >= 0,
        h >= 0,
    ensures
        row_of(v2, min, max, h) <= row_of(v1, min, max, h),
        row_of(v1, min, max, h) >= -1,
{
    if max > min {
        if v1 <= max {
            assert((max - v1) * h / (max - min) >= 0) by (nonlinear_arith)
                requires
                    max - v1 >= 0,
                    h >= 0,
                    max - min > 0,
            ;
        }
        if v2 <= max {
            assert((max - v2) * h <= (max - v1) * h) by (nonlinear_arith)
                requires
                    max - v2 <= max - v1,
                    h >= 0,
            ;
            assert((max - v2) * h / (max - min) <= (max - v1) * h / (max - min)) by (nonlinear_arith)
                requires
                    (max - v2) * h <= (max - v1) * h,
                    max - min > 0,
            ;
        }
    }
}

/// For a candle whose open and close lie between its low and its high, every
/// body cell lies on a row that the wick also covers, in the same column.
pub proof fn lemma_body_within_wick(c: Ohlc, col: int, h: int, min: int, max: int)
    requires
        c.low <= c.open <= c.high,
        c.low <= c.close <= c.high,
        0 <= h <= 0xffff,
    ensures
        ({
            let t = trend_of(c);
            let wick = span(
                col,
                row_of(c.high as int, min, max, h),
                row_of(c.low as int, min, max, h),
                h,
                Glyph::Wick,
                t,
            );
            let body = span(
                col,
                row_of(c.open as int, min, max, h),
                row_of(c.close as int, min, max, h),
                h,
                Glyph::Body,
                t,
            );
            forall|j: int|
                0 <= j < body.len() ==> wick.contains(Cell { glyph: Glyph::Wick, ..#[trigger] body[j] })
        }),
{
    let t = trend_of(c);
    let hy = row_of(c.high as int, min, max, h);
    let ly = row_of(c.low as int, min, max, h);
    let oy = row_of(c.open as int, min, max, h);
    let cy = row_of(c.close as int, min, max, h);
    lemma_row_antitone(c.low as int, c.open as int, min, max, h);
    lemma_row_antitone(c.open as int, c.high as int, min, max, h);
    lemma_row_antitone(c.low as int, c.close as int, min, max, h);
    lemma_row_antitone(c.close as int, c.high as int, min, max, h);
    lemma_row_antitone(c.low as int, c.high as int, min, max, h);
    let wick = span(col, hy, ly, h, Glyph::Wick, t);
    let body = span(col, oy, cy, h, Glyph::Body, t);
    let lo = if oy <= cy {
        oy
    } else {
        cy
    };
    let start_body = if lo < 0 {
        0
    } else {
        lo
    };
    let start_wick = if hy < 0 {
        0
    } else {
        hy
    };
    assert forall|j: int| 0 <= j < body.len() implies wick.contains(
        Cell { glyph: Glyph::Wick, ..#[trigger] body[j] },
    ) by {
        let k = start_body + j - start_wick;
        assert(wick[k] == Cell { glyph: Glyph::Wick, ..body[j] });
    }
}

/// An empty window draws nothing.
pub proof fn lemma_empty_window_no_cells(width: int, height: int)
    ensures
        chart_cells(Seq::<Ohlc>::empty(), width, height).len() == 0,
{
}

proof fn lemma_flat_extremes(s: Seq<Ohlc>, p: u64)
    requires
        s.len() > 0,
        forall|i: int| 0 <= i < s.len() ==> s[i].high == p && s[i].low == p,
    ensures
        min_low(s) == p,
        max_high(s) == p,
    decreases s.len(),
{
    if s.len() > 1 {
        lemma_flat_extremes(s.drop_last(), p);
    }
}

proof fn lemma_flat_rows(s: Seq<Ohlc>, k: int, w: int, h: int, p: u64)
    requires
        0 <= k <= s.len(),
        0 <= h <= 0xffff,
        forall|i: int|
            0 <= i < s.len() ==> s[i].high == p && s[i].low == p && s[i].open == p && s[i].close == p,
    ensures
        forall|j: int|
            0 <= j < cells_upto(s, k, w, h, p as int, p as int).len() ==> (#[trigger] cells_upto(
                s,
                k,
                w,
                h,
                p as int,
                p as int,
            )[j]).row == h / 2,
    decreases k,
{
    if k > 0 {
        lemma_flat_rows(s, k - 1, w, h, p);
        let front = cells_upto(s, k - 1, w, h, p as int, p as int);
        let last = candle_cells(s[k - 1], col_of(k - 1, s.len() as int, w), h, p as int, p as int);
        assert(cells_upto(s, k, w, h, p as int, p as int) == front + last);
        assert forall|j: int| 0 <= j < (front + last).len() implies (front + last)[j].row == h / 2 by {
            if j >= front.len() {
                assert((front + last)[j] == last[j - front.len()]);
            } else {
                assert((front + last)[j] == front[j]);
            }
        }
    }
}

/// A window in which every candle opens, closes, peaks and bottoms at one
/// price `p` draws every cell on the middle row of the plot area.
pub proof fn lemma_flat_window_centered(s: Seq<Ohlc>, p: u64, width: u16, height: u16)
    requires
        forall|i: int|
            0 <= i < s.len() ==> s[i].high == p && s[i].low == p && s[i].open == p && s[i].close == p,
    ensures
        forall|j: int|
            0 <= j < chart_cells(s, width as int, height as int).len() ==> (#[trigger] chart_cells(
                s,
                width as int,
                height as int,
            )[j]).row == inner(height as int) / 2,
{
    if s.len() > 0 {
        lemma_flat_extremes(s, p);
        lemma_flat_rows(s, s.len() as int, inner(width as int), inner(height as int), p);
    }
}

} // verus!
