use vstd::prelude::*;
use crate::api::{KlineData, TickerPrice};
use crate::config::{ascii_upper_of, is_ascii_text, names, upper_of, AppConfig, ConfigRest, PairSet};
use crate::event::{elapsed, EventType, Key};
use crate::table::SymbolTable;

verus! {

/// Whether keys go to the dashboard or to the field where a new pair is typed.
#[derive(Clone, Copy, Debug, PartialEq, Eq, Structural)]
pub enum InputMode {
    Normal,
    AddingPair,
}

/// Outside work the event loop owes after a key: fetch fresh data, write the
/// settings, or report (and on success save) an addition or a removal.
#[derive(Clone, Copy, Debug, PartialEq, Eq, Structural)]
pub enum Effect {
    Nothing,
    Refresh,
    Save,
    PairAdded(bool),
    PairRemoved(bool),
}

/// State of the dashboard. Times are milliseconds on the caller's clock.
pub struct App {
    pub config: AppConfig,
    pub input_mode: InputMode,
    pub input_buffer: String,
    pub ticker_prices: SymbolTable<TickerPrice>,
    pub kline_data: SymbolTable<Vec<KlineData>>,
    pub selected_symbol: Option<String>,
    pub last_refresh: u64,
    pub should_quit: bool,
}

/// Abstract state of the dashboard.
pub struct AppModel {
    pub pairs: PairSet,
    pub interval: u64,
    pub settings: ConfigRest,
    pub mode: InputMode,
    pub buffer: Seq<char>,
    pub prices: Map<Seq<char>, TickerPrice>,
    pub klines: Map<Seq<char>, Vec<KlineData>>,
    pub selected: Option<Seq<char>>,
    pub last_refresh: u64,
    pub quit: bool,
}

impl View for App {
    type V = AppModel;

    open spec fn view(&self) -> AppModel {
        AppModel {
            pairs: self.config.trading_pairs@,
            interval: self.config.refresh_interval,
            settings: self.config.rest(),
            mode: self.input_mode,
            buffer: self.input_buffer@,
            prices: self.ticker_prices@,
            klines: self.kline_data@,
            selected: match self.selected_symbol {
                Some(s) => Some(s@),
                None => None,
            },
            last_refresh: self.last_refresh,
            quit: self.should_quit,
        }
    }
}

/// What `char::is_alphanumeric` returns for a character.
pub uninterp spec fn alnum_of(c: char) -> bool;

/// Relies on `char::is_alphanumeric`: alphabetic or numeric in Unicode's
/// sense; among ASCII characters that is exactly the letters and digits.
#[verifier::external_body]
fn is_alphanumeric(c: char) -> (r: bool)
    ensures
        r == alnum_of(c),
        (c as u32) < 128 ==> (r <==> ('a' <= c <= 'z' || 'A' <= c <= 'Z' || '0' <= c <= '9')),
{
    c.is_alphanumeric()
}

/// Relies on `String::push`: appends the character.
#[verifier::external_body]
fn push_char(s: &mut String, c: char)
    ensures
        final(s)@ == old(s)@.push(c),
{
    s.push(c)
}

/// Relies on `String::pop`: removes and returns the last character, if any.
#[verifier::external_body]
fn pop_char(s: &mut String) -> (r: Option<char>)
    ensures
        old(s)@.len() == 0 ==> r.is_none() && final(s)@ == old(s)@,
        old(s)@.len() > 0 ==> r == Some(old(s)@.last()) && final(s)@ == old(s)@.drop_last(),
{
    s.pop()
}

fn position(v: &Vec<String>, s: &String) -> (r: Option<usize>)
    ensures
        match r {
            Some(i) => names(v@).index_of_first(s@) == Some(i as int) && i < v@.len(),
            None => names(v@).index_of_first(s@).is_none(),
        },
{
    let ghost c = names(v@);
    proof {
        c.index_of_first_ensures(s@);
    }
    let mut i: usize = 0;
    while i < v.len()
        invariant
            c == names(v@),
            0 <= i <= c.len(),
            forall|j: int| 0 <= j < i ==> c[j] != s@,
            match c.index_of_first(s@) {
                Some(index) => {
                    &&& c.contains(s@)
                    &&& 0 <= index < c.len()
                    &&& c[index] == s@
                    &&& forall|j: int| 0 <= j < index < c.len() ==> c[j] != s@
                },
                None => { !c.contains(s@) },
            },
        decreases c.len() - i,
    {
        assert(c[i as int] == v@[i as int]@);
        if v[i] == *s {
            assert(c.contains(s@));
            assert(c.index_of_first(s@) == Some(i as int));
            return Some(i);
        }
        i = i + 1;
    }
    None
}

/// Whether a refresh is due: at least `interval` seconds since the last one.
pub open spec fn refresh_due(m: AppModel, now: u64) -> bool {
    elapsed(m.last_refresh, now) >= m.interval as int * 1000
}

/// The prices of a batch stored over `m`, later entries winning.
pub open spec fn with_prices(m: Map<Seq<char>, TickerPrice>, batch: Seq<TickerPrice>) -> Map<
    Seq<char>,
    TickerPrice,
>
    decreases batch.len(),
{
    if batch.len() == 0 {
        m
    } else {
        with_prices(m, batch.drop_last()).insert(batch.last().symbol@, batch.last())
    }
}

/// The candle windows of a batch stored over `m`, later entries winning.
pub open spec fn with_klines(
    m: Map<Seq<char>, Vec<KlineData>>,
    batch: Seq<(String, Vec<KlineData>)>,
) -> Map<Seq<char>, Vec<KlineData>>
    decreases batch.len(),
{
    if batch.len() == 0 {
        m
    } else {
        with_klines(m, batch.drop_last()).insert(batch.last().0@, batch.last().1)
    }
}

/// State after a completed refresh at time `now`.
pub open spec fn refreshed(
    m: AppModel,
    prices: Seq<TickerPrice>,
    klines: Seq<(String, Vec<KlineData>)>,
    now: u64,
) -> AppModel {
    AppModel {
        prices: with_prices(m.prices, prices),
        klines: with_klines(m.klines, klines),
        last_refresh: now,
        ..m
    }
}

/// Right after a refresh no other is due; one is due again once the refresh
/// interval has passed. (With an interval of zero a refresh is always due.)
pub proof fn lemma_refresh_timer(
    m: AppModel,
    prices: Seq<TickerPrice>,
    klines: Seq<(String, Vec<KlineData>)>,
    now: u64,
    later: u64,
)
    requires
        m.interval > 0,
    ensures
        !refresh_due(refreshed(m, prices, klines, now), now),
        later >= now + m.interval * 1000 ==> refresh_due(refreshed(m, prices, klines, now), later),
{
}

/// Selection after moving one step towards the top of the list.
pub open spec fn prev_selection(shown: Seq<Seq<char>>, selected: Option<Seq<char>>) -> Option<
    Seq<char>,
> {
    match selected {
        Some(cur) => match shown.index_of_first(cur) {
            Some(i) => if i > 0 {
                Some(shown[i - 1])
            } else {
                selected
            },
            None => selected,
        },
        None => if shown.len() > 0 {
            Some(shown[0])
        } else {
            None
        },
    }
}

/// Selection after moving one step towards the bottom of the list.
pub open spec fn next_selection(shown: Seq<Seq<char>>, selected: Option<Seq<char>>) -> Option<
    Seq<char>,
> {
    match selected {
        Some(cur) => match shown.index_of_first(cur) {
            Some(i) => if i + 1 < shown.len() {
                Some(shown[i + 1])
            } else {
                selected
            },
            None => selected,
        },
        None => if shown.len() > 0 {
            Some(shown[0])
        } else {
            None
        },
    }
}

/// Selection after the quick-select key for position `n` (0-based).
pub open spec fn nth_selection(shown: Seq<Seq<char>>, selected: Option<Seq<char>>, n: int) -> Option<
    Seq<char>,
> {
    if 0 <= n < shown.len() {
        Some(shown[n])
    } else {
        selected
    }
}

/// The dashboard's answer to a key: its next state and the outside work owed.
pub open spec fn key_step(m: AppModel, key: Key) -> (AppModel, Effect) {
    match m.mode {
        InputMode::AddingPair => match key {
            Key::Char(c) => if alnum_of(c) {
                (AppModel { buffer: m.buffer.push(c), ..m }, Effect::Nothing)
            } else {
                (m, Effect::Nothing)
            },
            Key::Backspace => if m.buffer.len() > 0 {
                (AppModel { buffer: m.buffer.drop_last(), ..m }, Effect::Nothing)
            } else {
                (m, Effect::Nothing)
            },
            Key::Enter => if m.buffer.len() > 0 {
                let u = upper_of(m.buffer);
                (
                    AppModel {
                        pairs: m.pairs.after_add(u),
                        mode: InputMode::Normal,
                        buffer: Seq::empty(),
                        ..m
                    },
                    Effect::PairAdded(m.pairs.can_add(u)),
                )
            } else {
                (
                    AppModel { mode: InputMode::Normal, buffer: Seq::empty(), ..m },
                    Effect::PairAdded(false),
                )
            },
            Key::Esc => (
                AppModel { mode: InputMode::Normal, buffer: Seq::empty(), ..m },
                Effect::Nothing,
            ),
            _ => (m, Effect::Nothing),
        },
        InputMode::Normal => match key {
            Key::Char(c) => if c == 'q' {
                (AppModel { quit: true, ..m }, Effect::Nothing)
            } else if c == 'r' || c == ' ' {
                (m, Effect::Refresh)
            } else if '1' <= c <= '5' {
                (
                    AppModel {
                        selected: nth_selection(m.pairs.shown(), m.selected, c as int - '1' as int),
                        ..m
                    },
                    Effect::Nothing,
                )
            } else if c == 'a' {
                (AppModel { mode: InputMode::AddingPair, buffer: Seq::empty(), ..m }, Effect::Nothing)
            } else if c == 'd' {
                match m.selected {
                    Some(s) => {
                        let u = upper_of(s);
                        (
                            AppModel { pairs: m.pairs.after_remove(u), ..m },
                            Effect::PairRemoved(m.pairs.can_remove(u)),
                        )
                    },
                    None => (m, Effect::Nothing),
                }
            } else if c == 's' {
                (m, Effect::Save)
            } else {
                (m, Effect::Nothing)
            },
            Key::Up => (
                AppModel { selected: prev_selection(m.pairs.shown(), m.selected), ..m },
                Effect::Nothing,
            ),
            Key::Down => (
                AppModel { selected: next_selection(m.pairs.shown(), m.selected), ..m },
                Effect::Nothing,
            ),
            _ => (m, Effect::Nothing),
        },
    }
}

/// Whatever key ends the adding of a pair, the field is left empty; and no
/// key changes anything but the field while a pair is being added, besides
/// the confirmation that adds it.
pub proof fn lemma_leaving_field_clears_it(m: AppModel, key: Key)
    requires
        m.mode == InputMode::AddingPair,
    ensures
        key_step(m, key).0.mode == InputMode::Normal ==> key_step(m, key).0.buffer.len() == 0,
        key != Key::Enter ==> key_step(m, key).0 == (AppModel {
            mode: key_step(m, key).0.mode,
            buffer: key_step(m, key).0.buffer,
            ..m
        }),
{
}

impl App {
    /// Text typed is only held while a pair is being added; the tables are
    /// well formed.
    pub open spec fn wf(&self) -> bool {
        &&& self.ticker_prices.wf()
        &&& self.kline_data.wf()
        &&& self.input_mode == InputMode::Normal ==> self.input_buffer@.len() == 0
    }

    /// A dashboard with no data yet, nothing selected, in normal mode; `now`
    /// counts as the last refresh.
    pub fn new(config: AppConfig, now: u64) -> (r: App)
        ensures
            r.wf(),
            r@ == (AppModel {
                pairs: config.trading_pairs@,
                interval: config.refresh_interval,
                settings: config.rest(),
                mode: InputMode::Normal,
                buffer: Seq::empty(),
                prices: Map::empty(),
                klines: Map::empty(),
                selected: None,
                last_refresh: now,
                quit: false,
            }),
    {
        App {
            config,
            input_mode: InputMode::Normal,
            input_buffer: String::new(),
            ticker_prices: SymbolTable::new(),
            kline_data: SymbolTable::new(),
            selected_symbol: None,
            last_refresh: now,
            should_quit: false,
        }
    }

    /// Swaps in the data of a completed refresh: each ticker and each candle
    /// window replaces what was stored for its symbol (other symbols keep
    /// theirs), and `now` becomes the time of the last refresh.
    pub fn refresh_data(
        &mut self,
        prices: Vec<TickerPrice>,
        klines: Vec<(String, Vec<KlineData>)>,
        now: u64,
    )
        requires
            old(self).wf(),
        ensures
            final(self).wf(),
            final(self)@ == refreshed(old(self)@, prices@, klines@, now),
    {
        let ghost before = self@;
        let ghost pb = prices@;
        let ghost kb = klines@;
        let mut prices = prices;
        let mut klines = klines;
        let n_prices = prices.len();
        let mut i: usize = 0;
        assert(pb.take(0) =~= Seq::<TickerPrice>::empty());
        while prices.len() > 0
            invariant
                self.wf(),
                i <= pb.len(),
                prices@ == pb.skip(i as int),
                prices@.len() == pb.len() - i,
                pb.len() == n_prices,
                self@ == (AppModel { prices: with_prices(before.prices, pb.take(i as int)), ..before }),
            decreases prices@.len(),
        {
            let p = prices.remove(0);
            assert(p == pb[i as int]);
            assert(pb.take(i as int + 1).drop_last() =~= pb.take(i as int));
            assert(pb.skip(i as int + 1) =~= pb.skip(i as int).skip(1));
            let key = p.symbol.clone();
            self.ticker_prices.insert(key, p);
            i = i + 1;
        }
        assert(pb.take(pb.len() as int) =~= pb);
        let ghost mid = self@;
        let n_klines = klines.len();
        let mut j: usize = 0;
        assert(kb.take(0) =~= Seq::<(String, Vec<KlineData>)>::empty());
        while klines.len() > 0
            invariant
                self.wf(),
                j <= kb.len(),
                klines@ == kb.skip(j as int),
                klines@.len() == kb.len() - j,
                kb.len() == n_klines,
                self@ == (AppModel { klines: with_klines(mid.klines, kb.take(j as int)), ..mid }),
            decreases klines@.len(),
        {
            let (key, window) = klines.remove(0);
            assert(kb.take(j as int + 1).drop_last() =~= kb.take(j as int));
            assert(kb.skip(j as int + 1) =~= kb.skip(j as int).skip(1));
            self.kline_data.insert(key, window);
            j = j + 1;
        }
        assert(kb.take(kb.len() as int) =~= kb);
        self.last_refresh = now;
    }

    pub fn select_symbol(&mut self, symbol: String)
        requires
            old(self).wf(),
        ensures
            final(self).wf(),
            final(self)@ == (AppModel { selected: Some(symbol@), ..old(self)@ }),
    {
        self.selected_symbol = Some(symbol);
    }

    /// Whether the data is due for a refresh at time `now`.
    pub fn should_refresh(&self, now: u64) -> (r: bool)
        ensures
            r == refresh_due(self@, now),
    {
        let e: u64 = if now >= self.last_refresh {
            now - self.last_refresh
        } else {
            0
        };
        (e as u128) >= (self.config.refresh_interval as u128) * 1000
    }

    pub fn quit(&mut self)
        requires
            old(self).wf(),
        ensures
            final(self).wf(),
            final(self)@ == (AppModel { quit: true, ..old(self)@ }),
    {
        self.should_quit = true;
    }

    /// The symbols on display, in order.
    pub fn get_symbols(&self) -> (r: Vec<String>)
        ensures
            names(r@) == self@.pairs.shown(),
    {
        self.config.get_all_symbols()
    }

    /// Adds a custom pair, upper-cased; see `AppConfig::add_custom_pair`. The
    /// caller saves the settings when this returns true.
    pub fn add_custom_pair(&mut self, symbol: String) -> (r: bool)
        requires
            old(self).wf(),
        ensures
            is_ascii_text(symbol@) ==> ascii_upper_of(symbol@, upper_of(symbol@)),
            final(self).wf(),
            r == old(self)@.pairs.can_add(upper_of(symbol@)),
            final(self)@ == (AppModel {
                pairs: old(self)@.pairs.after_add(upper_of(symbol@)),
                ..old(self)@
            }),
    {
        self.config.add_custom_pair(symbol)
    }

    /// Removes a custom pair, upper-cased; see `AppConfig::remove_custom_pair`.
    /// The caller saves the settings when this returns true.
    pub fn remove_custom_pair(&mut self, symbol: &str) -> (r: bool)
        requires
            old(self).wf(),
        ensures
            is_ascii_text(symbol@) ==> ascii_upper_of(symbol@, upper_of(symbol@)),
            final(self).wf(),
            r == old(self)@.pairs.can_remove(upper_of(symbol@)),
            final(self)@ == (AppModel {
                pairs: old(self)@.pairs.after_remove(upper_of(symbol@)),
                ..old(self)@
            }),
    {
        self.config.remove_custom_pair(symbol)
    }

    /// Starts typing a new pair, with an empty field.
    pub fn enter_input_mode(&mut self)
        requires
            old(self).wf(),
        ensures
            final(self).wf(),
            final(self)@ == (AppModel {
                mode: InputMode::AddingPair,
                buffer: Seq::empty(),
                ..old(self)@
            }),
    {
        self.input_mode = InputMode::AddingPair;
        self.input_buffer = String::new();
    }

    /// Leaves the field, dropping what was typed.
    pub fn exit_input_mode(&mut self)
        requires
            old(self).wf(),
        ensures
            final(self).wf(),
            final(self)@ == (AppModel { mode: InputMode::Normal, buffer: Seq::empty(), ..old(self)@ }),
    {
        self.input_mode = InputMode::Normal;
        self.input_buffer = String::new();
    }

    /// Appends a character to the field; outside the field nothing changes.
    pub fn add_input_char(&mut self, c: char)
        requires
            old(self).wf(),
        ensures
            final(self).wf(),
            final(self)@ == (if old(self)@.mode == InputMode::AddingPair {
                AppModel { buffer: old(self)@.buffer.push(c), ..old(self)@ }
            } else {
                old(self)@
            }),
    {
        if self.input_mode == InputMode::AddingPair {
            push_char(&mut self.input_buffer, c);
        }
    }

    /// Drops the last character of the field, if any.
    pub fn remove_input_char(&mut self)
        requires
            old(self).wf(),
        ensures
            final(self).wf(),
            final(self)@ == (if old(self)@.buffer.len() > 0 {
                AppModel { buffer: old(self)@.buffer.drop_last(), ..old(self)@ }
            } else {
                old(self)@
            }),
    {
        let _ = pop_char(&mut self.input_buffer);
    }

    /// Confirms the field: a non-empty text is added as a pair (upper-cased);
    /// either way the field is left and emptied. True when a pair was added.
    pub fn submit_input(&mut self) -> (r: bool)
        requires
            old(self).wf(),
        ensures
            final(self).wf(),
            old(self)@.buffer.len() > 0 ==> r == old(self)@.pairs.can_add(upper_of(old(self)@.buffer))
                && final(self)@ == (AppModel {
                pairs: old(self)@.pairs.after_add(upper_of(old(self)@.buffer)),
                mode: InputMode::Normal,
                buffer: Seq::empty(),
                ..old(self)@
            }),
            old(self)@.buffer.len() == 0 ==> !r && final(self)@ == (AppModel {
                mode: InputMode::Normal,
                buffer: Seq::empty(),
                ..old(self)@
            }),
    {
        if !self.input_buffer.as_str().is_empty() {
            let text = self.input_buffer.clone();
            let success = self.add_custom_pair(text);
            self.exit_input_mode();
            success
        } else {
            self.exit_input_mode();
            false
        }
    }

    /// Selects the symbol at position `n` (0-based) of the display, if there
    /// is one.
    pub fn quick_select(&mut self, n: usize)
        requires
            old(self).wf(),
        ensures
            final(self).wf(),
            final(self)@ == (AppModel {
                selected: nth_selection(old(self)@.pairs.shown(), old(self)@.selected, n as int),
                ..old(self)@
            }),
    {
        let symbols = self.get_symbols();
        if n < symbols.len() {
            assert(names(symbols@)[n as int] == symbols@[n as int]@);
            self.select_symbol(symbols[n].clone());
        }
    }

    /// Moves the selection one step up, stopping at the top; with nothing
    /// selected, selects the first symbol.
    pub fn select_previous(&mut self)
        requires
            old(self).wf(),
        ensures
            final(self).wf(),
            final(self)@ == (AppModel {
                selected: prev_selection(old(self)@.pairs.shown(), old(self)@.selected),
                ..old(self)@
            }),
    {
        let symbols = self.get_symbols();
        let ghost shown = names(symbols@);
        assert(shown == self@.pairs.shown());
        let current: Option<String> = match &self.selected_symbol {
            Some(c) => Some(c.clone()),
            None => None,
        };
        match current {
            Some(cur) => match position(&symbols, &cur) {
                Some(i) => {
                    assert(shown.index_of_first(cur@) == Some(i as int));
                    if i > 0 {
                        let t: usize = i - 1;
                        assert(shown[t as int] == symbols@[t as int]@);
                        self.select_symbol(symbols[t].clone());
                    } else {
                        assert(prev_selection(shown, Some(cur@)) == Some(cur@));
                    }
                },
                None => {
                    assert(prev_selection(shown, Some(cur@)) == Some(cur@));
                },
            },
            None => {
                if symbols.len() > 0 {
                    assert(shown[0] == symbols@[0]@);
                    self.select_symbol(symbols[0].clone());
                }
            },
        }
    }

    /// Moves the selection one step down, stopping at the bottom; with nothing
    /// selected, selects the first symbol.
    pub fn select_next(&mut self)
        requires
            old(self).wf(),
        ensures
            final(self).wf(),
            final(self)@ == (AppModel {
                selected: next_selection(old(self)@.pairs.shown(), old(self)@.selected),
                ..old(self)@
            }),
    {
        let symbols = self.get_symbols();
        let ghost shown = names(symbols@);
        assert(shown == self@.pairs.shown());
        let current: Option<String> = match &self.selected_symbol {
            Some(c) => Some(c.clone()),
            None => None,
        };
        match current {
            Some(cur) => match position(&symbols, &cur) {
                Some(i) => {
                    if i < symbols.len() - 1 {
                        let t: usize = i + 1;
                        assert(shown[t as int] == symbols@[t as int]@);
                        self.select_symbol(symbols[t].clone());
                    }
                },
                None => {},
            },
            None => {
                if symbols.len() > 0 {
                    assert(shown[0] == symbols@[0]@);
                    self.select_symbol(symbols[0].clone());
                }
            },
        }
    }

    /// Reacts to a key: changes the state as `key_step` says and returns the
    /// outside work owed.
    pub fn handle_key(&mut self, key: Key) -> (r: Effect)
        requires
            old(self).wf(),
        ensures
            final(self).wf(),
            (final(self)@, r) == key_step(old(self)@, key),
    {
        match self.input_mode {
            InputMode::AddingPair => match key {
                Key::Char(c) => {
                    if is_alphanumeric(c) {
                        self.add_input_char(c);
                    }
                    Effect::Nothing
                },
                Key::Backspace => {
                    self.remove_input_char();
                    Effect::Nothing
                },
                Key::Enter => Effect::PairAdded(self.submit_input()),
                Key::Esc => {
                    self.exit_input_mode();
                    Effect::Nothing
                },
                _ => Effect::Nothing,
            },
            InputMode::Normal => match key {
                Key::Char(c) => {
                    if c == 'q' {
                        self.quit();
                        Effect::Nothing
                    } else if c == 'r' || c == ' ' {
                        Effect::Refresh
                    } else if '1' <= c && c <= '5' {
                        self.quick_select((c as u32 - '1' as u32) as usize);
                        Effect::Nothing
                    } else if c == 'a' {
                        self.enter_input_mode();
                        Effect::Nothing
                    } else if c == 'd' {
                        match self.selected_symbol.clone() {
                            Some(s) => Effect::PairRemoved(self.remove_custom_pair(s.as_str())),
                            None => Effect::Nothing,
                        }
                    } else if c == 's' {
                        Effect::Save
                    } else {
                        Effect::Nothing
                    }
                },
                Key::Up => {
                    self.select_previous();
                    Effect::Nothing
                },
                Key::Down => {
                    self.select_next();
                    Effect::Nothing
                },
                _ => Effect::Nothing,
            },
        }
    }

    /// Reacts to an event of the loop at time `now`: keys as `handle_key`
    /// says; a tick asks for a refresh when one is due; a refresh request asks
    /// for one.
    pub fn handle_event(&mut self, event: EventType, now: u64) -> (r: Effect)
        requires
            old(self).wf(),
        ensures
            final(self).wf(),
            match event {
                EventType::Input(key) => (final(self)@, r) == key_step(old(self)@, key),
                EventType::Tick => final(self)@ == old(self)@ && r == (if refresh_due(old(self)@, now) {
                    Effect::Refresh
                } else {
                    Effect::Nothing
                }),
                EventType::Refresh => final(self)@ == old(self)@ && r == Effect::Refresh,
            },
    {
        match event {
            EventType::Input(key) => self.handle_key(key),
            EventType::Tick => if self.should_refresh(now) {
                Effect::Refresh
            } else {
                Effect::Nothing
            },
            EventType::Refresh => Effect::Refresh,
        }
    }
}

} // verus!
