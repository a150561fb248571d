use binance_portal_tui::api::{klines_from_rows, Field, KlineData, TickerPrice};
use binance_portal_tui::event::{EventHandler, EventType, InputMode};
use binance_portal_tui::table::SymbolTable;

fn text(s: &str) -> Field {
    Field::Text(s.to_string())
}

fn record(open_time: i64) -> Vec<Field> {
    vec![
        Field::Int(open_time),
        text("1.0"),
        text("2.0"),
        text("0.5"),
        text("1.5"),
        text("100"),
        Field::Int(open_time + 299_999),
    ]
}

#[test]
fn ticker_fields_default_to_zero() {
    let t = TickerPrice::from_fields(
        &"BTCUSDT".to_string(),
        &text("65000.5"),
        &Field::Other,
        &Field::Int(3),
        &text("12"),
        &text("66000"),
        &text("64000"),
    );
    assert_eq!(t.symbol, "BTCUSDT");
    assert_eq!(t.price, "65000.5");
    assert_eq!(t.price_change, "0");
    assert_eq!(t.price_change_percent, "0");
    assert_eq!(t.volume, "12");
    assert_eq!(t.high_24h, "66000");
    assert_eq!(t.low_24h, "64000");
}

#[test]
fn short_record_gives_no_candle() {
    let mut r = record(1);
    r.pop();
    assert!(KlineData::from_row(&r).is_none());
}

#[test]
fn record_fields_are_read_in_order() {
    let mut r = record(1_000);
    r[2] = Field::Other;
    r[6] = text("x");
    r.push(text("extra"));
    let k = KlineData::from_row(&r).unwrap();
    assert_eq!(k.open_time, 1_000);
    assert_eq!(k.open, "1.0");
    assert_eq!(k.high, "0");
    assert_eq!(k.low, "0.5");
    assert_eq!(k.close, "1.5");
    assert_eq!(k.volume, "100");
    assert_eq!(k.close_time, 0);
}

#[test]
fn malformed_records_are_skipped() {
    let rows = vec![record(1), vec![Field::Int(2)], record(3), vec![]];
    let klines = klines_from_rows(&rows);
    assert_eq!(klines.len(), 2);
    assert_eq!(klines[0].open_time, 1);
    assert_eq!(klines[1].open_time, 3);
}

#[test]
fn table_insert_replaces() {
    let mut t: SymbolTable<u32> = SymbolTable::new();
    t.insert("A".to_string(), 1);
    t.insert("B".to_string(), 2);
    t.insert("A".to_string(), 3);
    assert_eq!(t.get(&"A".to_string()), Some(&3));
    assert_eq!(t.get(&"B".to_string()), Some(&2));
    assert_eq!(t.get(&"C".to_string()), None);
}

#[test]
fn event_handler_ticks_on_schedule() {
    let mut h = EventHandler::new(250, 1_000);
    assert_eq!(h.input_mode, InputMode::Normal);
    assert_eq!(h.poll_timeout(1_100), 150);
    assert_eq!(h.next_tick(1_100), None);
    assert_eq!(h.poll_timeout(1_300), 0);
    assert_eq!(h.next_tick(1_300), Some(EventType::Tick));
    assert_eq!(h.last_tick, 1_300);
    assert_eq!(h.poll_timeout(1_300), 250);
}
