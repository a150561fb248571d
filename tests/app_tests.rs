use binance_portal_tui::api::{Field, KlineData, TickerPrice};
use binance_portal_tui::app::{App, Effect, InputMode};
use binance_portal_tui::config::AppConfig;
use binance_portal_tui::event::{EventType, Key};

fn ticker(symbol: &str, price: &str) -> TickerPrice {
    let text = |s: &str| Field::Text(s.to_string());
    TickerPrice::from_fields(
        &symbol.to_string(),
        &text(price),
        &text("1.5"),
        &text("0.5"),
        &text("1000"),
        &text("110"),
        &text("90"),
    )
}

fn selected(app: &App) -> Option<String> {
    app.selected_symbol.clone()
}

#[test]
fn new_app_starts_empty_in_normal_mode() {
    let app = App::new(AppConfig::default(), 5_000);
    assert_eq!(app.input_mode, InputMode::Normal);
    assert!(app.input_buffer.is_empty());
    assert!(app.selected_symbol.is_none());
    assert!(!app.should_quit);
    assert_eq!(app.last_refresh, 5_000);
    assert!(app.ticker_prices.get(&"BTCUSDT".to_string()).is_none());
    assert_eq!(app.get_symbols().len(), 8);
}

#[test]
fn refresh_timer_follows_interval() {
    let mut app = App::new(AppConfig::default(), 0);
    app.refresh_data(vec![ticker("BTCUSDT", "65000")], vec![], 1_000);
    assert!(!app.should_refresh(1_000));
    assert!(!app.should_refresh(20_999));
    assert!(app.should_refresh(21_000));
    assert!(app.should_refresh(30_000));
    // a clock reading earlier than the last refresh counts as no time passed
    assert!(!app.should_refresh(500));
}

#[test]
fn refresh_replaces_entries_and_keeps_others() {
    let mut app = App::new(AppConfig::default(), 0);
    let window = vec![KlineData {
        open_time: 1,
        open: "1".to_string(),
        high: "2".to_string(),
        low: "0.5".to_string(),
        close: "1.5".to_string(),
        volume: "9".to_string(),
        close_time: 2,
    }];
    app.refresh_data(
        vec![ticker("BTCUSDT", "1"), ticker("ETHUSDT", "2")],
        vec![("BTCUSDT".to_string(), window)],
        10,
    );
    app.refresh_data(vec![ticker("BTCUSDT", "3")], vec![("BTCUSDT".to_string(), vec![])], 20);
    assert_eq!(app.ticker_prices.get(&"BTCUSDT".to_string()).unwrap().price, "3");
    assert_eq!(app.ticker_prices.get(&"ETHUSDT".to_string()).unwrap().price, "2");
    assert!(app.kline_data.get(&"BTCUSDT".to_string()).unwrap().is_empty());
    assert!(app.kline_data.get(&"ETHUSDT".to_string()).is_none());
    assert_eq!(app.last_refresh, 20);
}

#[test]
fn adding_mode_collects_alphanumeric_keys() {
    let mut app = App::new(AppConfig::default(), 0);
    assert_eq!(app.handle_key(Key::Char('a')), Effect::Nothing);
    assert_eq!(app.input_mode, InputMode::AddingPair);
    for c in ['d', 'o', '-', 'g', 'e', '!'] {
        assert_eq!(app.handle_key(Key::Char(c)), Effect::Nothing);
    }
    assert_eq!(app.input_buffer, "doge");
    app.handle_key(Key::Backspace);
    assert_eq!(app.input_buffer, "dog");
    for c in ['e', 'u', 's', 'd', 't'] {
        app.handle_key(Key::Char(c));
    }
    assert_eq!(app.handle_key(Key::Enter), Effect::PairAdded(true));
    assert_eq!(app.input_mode, InputMode::Normal);
    assert!(app.input_buffer.is_empty());
    let symbols = app.get_symbols();
    assert_eq!(symbols.len(), 9);
    assert_eq!(symbols[8], "DOGEUSDT");
}

#[test]
fn confirming_empty_field_adds_nothing() {
    let mut app = App::new(AppConfig::default(), 0);
    app.enter_input_mode();
    assert!(!app.submit_input());
    assert_eq!(app.input_mode, InputMode::Normal);
    assert_eq!(app.get_symbols().len(), 8);
}

#[test]
fn cancel_discards_field() {
    let mut app = App::new(AppConfig::default(), 0);
    app.handle_key(Key::Char('a'));
    app.handle_key(Key::Char('x'));
    assert_eq!(app.handle_key(Key::Esc), Effect::Nothing);
    assert_eq!(app.input_mode, InputMode::Normal);
    assert!(app.input_buffer.is_empty());
    assert_eq!(app.get_symbols().len(), 8);
}

#[test]
fn backspace_on_empty_field_is_harmless() {
    let mut app = App::new(AppConfig::default(), 0);
    app.enter_input_mode();
    app.remove_input_char();
    assert!(app.input_buffer.is_empty());
    assert_eq!(app.input_mode, InputMode::AddingPair);
}

#[test]
fn typing_outside_the_field_is_ignored() {
    let mut app = App::new(AppConfig::default(), 0);
    app.add_input_char('x');
    assert!(app.input_buffer.is_empty());
}

#[test]
fn duplicate_pair_from_field_is_reported() {
    let mut app = App::new(AppConfig::default(), 0);
    assert!(app.add_custom_pair("solusdt".to_string()));
    app.handle_key(Key::Char('a'));
    for c in "SOLUSDT".chars() {
        app.handle_key(Key::Char(c));
    }
    assert_eq!(app.handle_key(Key::Enter), Effect::PairAdded(false));
    assert_eq!(app.get_symbols().len(), 9);
}

#[test]
fn normal_mode_keys() {
    let mut app = App::new(AppConfig::default(), 0);
    assert_eq!(app.handle_key(Key::Char('r')), Effect::Refresh);
    assert_eq!(app.handle_key(Key::Char(' ')), Effect::Refresh);
    assert_eq!(app.handle_key(Key::Char('s')), Effect::Save);
    assert_eq!(app.handle_key(Key::Char('z')), Effect::Nothing);
    assert_eq!(app.handle_key(Key::Other), Effect::Nothing);
    assert!(!app.should_quit);
    assert_eq!(app.handle_key(Key::Char('q')), Effect::Nothing);
    assert!(app.should_quit);
}

#[test]
fn quick_select_picks_nth_symbol() {
    let mut app = App::new(AppConfig::default(), 0);
    app.handle_key(Key::Char('3'));
    assert_eq!(selected(&app).as_deref(), Some("BNBUSDT"));
    app.handle_key(Key::Char('5'));
    assert_eq!(selected(&app).as_deref(), Some("DOTUSDT"));
    app.quick_select(50);
    assert_eq!(selected(&app).as_deref(), Some("DOTUSDT"));
}

#[test]
fn quick_select_on_short_list_keeps_selection() {
    let mut config = AppConfig::default();
    config.trading_pairs.default_pairs = vec!["BTCUSDT".to_string()];
    let mut app = App::new(config, 0);
    app.handle_key(Key::Char('2'));
    assert!(selected(&app).is_none());
    app.handle_key(Key::Char('1'));
    assert_eq!(selected(&app).as_deref(), Some("BTCUSDT"));
}

#[test]
fn navigation_clamps_at_both_ends() {
    let mut app = App::new(AppConfig::default(), 0);
    app.handle_key(Key::Up);
    assert_eq!(selected(&app).as_deref(), Some("BTCUSDT"));
    app.handle_key(Key::Up);
    assert_eq!(selected(&app).as_deref(), Some("BTCUSDT"));
    app.handle_key(Key::Down);
    assert_eq!(selected(&app).as_deref(), Some("ETHUSDT"));
    for _ in 0..20 {
        app.handle_key(Key::Down);
    }
    assert_eq!(selected(&app).as_deref(), Some("XRPUSDT"));
    app.handle_key(Key::Up);
    assert_eq!(selected(&app).as_deref(), Some("LTCUSDT"));
}

#[test]
fn navigation_with_nothing_selected_picks_first() {
    let mut app = App::new(AppConfig::default(), 0);
    app.select_next();
    assert_eq!(selected(&app).as_deref(), Some("BTCUSDT"));
}

#[test]
fn navigation_on_empty_list_does_nothing() {
    let mut config = AppConfig::default();
    config.trading_pairs.default_pairs = vec![];
    let mut app = App::new(config, 0);
    app.handle_key(Key::Down);
    app.handle_key(Key::Up);
    app.handle_key(Key::Char('1'));
    assert!(selected(&app).is_none());
}

#[test]
fn delete_removes_selected_custom_pair() {
    let mut app = App::new(AppConfig::default(), 0);
    assert!(app.add_custom_pair("solusdt".to_string()));
    app.select_symbol("SOLUSDT".to_string());
    assert_eq!(app.handle_key(Key::Char('d')), Effect::PairRemoved(true));
    assert_eq!(app.get_symbols().len(), 8);
    // the selection stays, pointing at a symbol no longer shown
    assert_eq!(selected(&app).as_deref(), Some("SOLUSDT"));
    assert_eq!(app.handle_key(Key::Char('d')), Effect::PairRemoved(false));
    app.handle_key(Key::Down);
    assert_eq!(selected(&app).as_deref(), Some("SOLUSDT"));
}

#[test]
fn delete_keeps_default_pairs() {
    let mut app = App::new(AppConfig::default(), 0);
    assert_eq!(app.handle_key(Key::Char('d')), Effect::Nothing);
    app.handle_key(Key::Char('1'));
    assert_eq!(app.handle_key(Key::Char('d')), Effect::PairRemoved(false));
    assert_eq!(app.get_symbols().len(), 8);
}

#[test]
fn tick_asks_for_refresh_only_when_due() {
    let mut app = App::new(AppConfig::default(), 0);
    assert_eq!(app.handle_event(EventType::Tick, 19_999), Effect::Nothing);
    assert_eq!(app.handle_event(EventType::Tick, 20_000), Effect::Refresh);
    assert_eq!(app.handle_event(EventType::Refresh, 0), Effect::Refresh);
    assert_eq!(app.handle_event(EventType::Input(Key::Char('a')), 0), Effect::Nothing);
    assert_eq!(app.input_mode, InputMode::AddingPair);
}

#[test]
fn new_app_keeps_given_settings() {
    let mut config = AppConfig::default();
    config.binance_api_url = "http://localhost:9000".to_string();
    config.theme.text = "#123456".to_string();
    let mut app = App::new(config, 0);
    assert_eq!(app.config.binance_api_url, "http://localhost:9000");
    assert_eq!(app.config.theme.text, "#123456");
    app.handle_key(Key::Char('a'));
    app.handle_key(Key::Char('x'));
    app.handle_key(Key::Enter);
    app.refresh_data(vec![], vec![], 5);
    assert_eq!(app.config.binance_api_url, "http://localhost:9000");
    assert_eq!(app.config.theme.text, "#123456");
}
