use binance_portal_tui::chart::{layout_candles, Cell, Glyph, Ohlc, Trend};

fn candle(open: u64, high: u64, low: u64, close: u64) -> Ohlc {
    Ohlc { open, high, low, close }
}

fn rows(cells: &[Cell], glyph: Glyph) -> Vec<u16> {
    cells.iter().filter(|c| c.glyph == glyph).map(|c| c.row).collect()
}

#[test]
fn empty_window_gives_no_cells() {
    assert!(layout_candles(&vec![], 80, 24).is_empty());
}

#[test]
fn single_candle_maps_high_to_top_and_low_to_bottom() {
    // plot area 10 by 10 inside the border
    let cells = layout_candles(&vec![candle(100, 115, 95, 110)], 12, 12);
    let wick = rows(&cells, Glyph::Wick);
    let body = rows(&cells, Glyph::Body);
    assert_eq!(wick, (0..10).collect::<Vec<u16>>());
    // close 110 maps to row 2, open 100 to row 7
    assert_eq!(body, (2..8).collect::<Vec<u16>>());
    assert!(body.iter().all(|r| wick.contains(r)));
    assert!(cells.iter().all(|c| c.col == 0 && c.trend == Trend::Up));
    assert_eq!(*wick.iter().min().unwrap(), 0);
    assert_eq!(*wick.iter().max().unwrap(), 9);
}

#[test]
fn flat_window_sits_on_middle_row() {
    let window = vec![candle(50, 50, 50, 50), candle(50, 50, 50, 50), candle(50, 50, 50, 50)];
    let cells = layout_candles(&window, 12, 12);
    assert_eq!(cells.len(), 6);
    assert!(cells.iter().all(|c| c.row == 5));
}

#[test]
fn falling_candle_is_down() {
    let cells = layout_candles(&vec![candle(110, 115, 95, 100)], 12, 12);
    assert!(cells.iter().all(|c| c.trend == Trend::Down));
}

#[test]
fn equal_open_and_close_is_up() {
    let cells = layout_candles(&vec![candle(100, 115, 95, 100)], 12, 12);
    assert!(cells.iter().all(|c| c.trend == Trend::Up));
    assert_eq!(rows(&cells, Glyph::Body), vec![7]);
}

#[test]
fn columns_spread_over_width() {
    let window = vec![candle(10, 20, 0, 15), candle(10, 20, 0, 15), candle(10, 20, 0, 15), candle(10, 20, 0, 15)];
    // inner width 8: columns 0, 2, 4, 6
    let cells = layout_candles(&window, 10, 6);
    let mut cols: Vec<u16> = cells.iter().map(|c| c.col).collect();
    cols.dedup();
    assert_eq!(cols, vec![0, 2, 4, 6]);
}

#[test]
fn more_candles_than_columns_share_columns() {
    let window = vec![candle(1, 2, 1, 2); 6];
    // inner width 3: i * 3 / 6 gives columns 0, 0, 1, 1, 2, 2
    let cells = layout_candles(&window, 5, 5);
    let mut cols: Vec<u16> = cells.iter().map(|c| c.col).collect();
    cols.dedup();
    assert_eq!(cols, vec![0, 1, 2]);
}

#[test]
fn tiny_area_draws_nothing() {
    let cells = layout_candles(&vec![candle(100, 115, 95, 110)], 2, 2);
    assert!(cells.is_empty());
}

#[test]
fn two_candles_scale_against_window_extremes() {
    // range 0..=100 over 10 rows
    let window = vec![candle(50, 100, 40, 60), candle(20, 30, 0, 10)];
    let cells = layout_candles(&window, 12, 12);
    let first: Vec<&Cell> = cells.iter().filter(|c| c.col == 0).collect();
    let second: Vec<&Cell> = cells.iter().filter(|c| c.col == 5).collect();
    let wick0: Vec<u16> = first.iter().filter(|c| c.glyph == Glyph::Wick).map(|c| c.row).collect();
    let body0: Vec<u16> = first.iter().filter(|c| c.glyph == Glyph::Body).map(|c| c.row).collect();
    assert_eq!(wick0, (0..=6).collect::<Vec<u16>>());
    assert_eq!(body0, (4..=5).collect::<Vec<u16>>());
    let wick1: Vec<u16> = second.iter().filter(|c| c.glyph == Glyph::Wick).map(|c| c.row).collect();
    let body1: Vec<u16> = second.iter().filter(|c| c.glyph == Glyph::Body).map(|c| c.row).collect();
    assert_eq!(wick1, (7..=9).collect::<Vec<u16>>());
    assert_eq!(body1, (8..=9).collect::<Vec<u16>>());
    assert!(second.iter().all(|c| c.trend == Trend::Down));
}

#[test]
fn prices_above_the_window_high_are_dropped() {
    // open and close above every high: no body cell, only the wick
    let cells = layout_candles(&vec![candle(130, 115, 95, 120)], 12, 12);
    assert!(rows(&cells, Glyph::Body).is_empty());
    assert_eq!(rows(&cells, Glyph::Wick), (0..10).collect::<Vec<u16>>());
    // close above the high, open inside: the body runs from the top down to the open
    let cells = layout_candles(&vec![candle(100, 115, 95, 120)], 12, 12);
    assert_eq!(rows(&cells, Glyph::Body), (0..=7).collect::<Vec<u16>>());
}
