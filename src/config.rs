use vstd::prelude::*;

verus! {

/// Colours of the interface, as `#rrggbb` strings.
pub struct ThemeConfig {
    pub primary: String,
    pub secondary: String,
    pub background: String,
    pub text: String,
}

/// The trading pairs the dashboard follows: fixed defaults, then pairs the user
/// added, shown up to `max_display_pairs` at a time.
pub struct TradingPairsConfig {
    pub default_pairs: Vec<String>,
    pub custom_pairs: Vec<String>,
    pub max_display_pairs: usize,
}

/// Settings of the dashboard, as loaded from and saved to the settings file.
pub struct AppConfig {
    pub refresh_interval: u64,
    pub symbols: Vec<String>,
    pub binance_api_url: String,
    pub theme: ThemeConfig,
    pub trading_pairs: TradingPairsConfig,
}

/// The settings that the pair operations leave alone: the legacy symbol
/// list, the exchange address and the four theme colours.
pub struct ConfigRest {
    pub symbols: Seq<Seq<char>>,
    pub api_url: Seq<char>,
    pub theme: Seq<Seq<char>>,
}

impl AppConfig {
    pub open spec fn rest(&self) -> ConfigRest {
        ConfigRest {
            symbols: names(self.symbols@),
            api_url: self.binance_api_url@,
            theme: seq![
                self.theme.primary@,
                self.theme.secondary@,
                self.theme.background@,
                self.theme.text@,
            ],
        }
    }
}

/// Abstract state of a pair configuration.
pub struct PairSet {
    pub defaults: Seq<Seq<char>>,
    pub custom: Seq<Seq<char>>,
    pub max: nat,
}

/// The characters of each string of a sequence.
pub open spec fn names(v: Seq<String>) -> Seq<Seq<char>> {
    v.map_values(|s: String| s@)
}

/// Keeps the first occurrence of each symbol, in order, and stops taking new
/// ones once `cap` are kept.
pub open spec fn dedup_capped(all: Seq<Seq<char>>, cap: nat) -> Seq<Seq<char>>
    decreases all.len(),
{
    if all.len() == 0 {
        Seq::empty()
    } else {
        let kept = dedup_capped(all.drop_last(), cap);
        let x = all.last();
        if !kept.contains(x) && kept.len() < cap {
            kept.push(x)
        } else {
            kept
        }
    }
}

impl PairSet {
    /// The symbols on display: defaults then custom pairs, without repeats,
    /// at most `max` of them.
    pub open spec fn shown(self) -> Seq<Seq<char>> {
        dedup_capped(self.defaults + self.custom, self.max)
    }

    /// Whether adding the (already upper-case) symbol `s` is accepted.
    pub open spec fn can_add(self, s: Seq<char>) -> bool {
        !self.custom.contains(s) && self.shown().len() < self.max
    }

    pub open spec fn after_add(self, s: Seq<char>) -> PairSet {
        if self.can_add(s) {
            PairSet { custom: self.custom.push(s), ..self }
        } else {
            self
        }
    }

    /// Whether removing the (already upper-case) symbol `s` is accepted.
    pub open spec fn can_remove(self, s: Seq<char>) -> bool {
        self.custom.contains(s)
    }

    /// Removes the first occurrence of `s` from the custom pairs.
    pub open spec fn after_remove(self, s: Seq<char>) -> PairSet {
        match self.custom.index_of_first(s) {
            Some(i) => PairSet { custom: self.custom.remove(i), ..self },
            None => self,
        }
    }
}

impl View for TradingPairsConfig {
    type V = PairSet;

    open spec fn view(&self) -> PairSet {
        PairSet {
            defaults: names(self.default_pairs@),
            custom: names(self.custom_pairs@),
            max: self.max_display_pairs as nat,
        }
    }
}

/// What `str::to_uppercase` returns for a string.
pub uninterp spec fn upper_of(s: Seq<char>) -> Seq<char>;

/// Upper case of an ASCII character: `a`..`z` become `A`..`Z`, the rest stay.
pub open spec fn ascii_upper_matches(c: char, u: char) -> bool {
    if 'a' <= c <= 'z' {
        u as u32 == c as u32 - 32
    } else {
        u == c
    }
}

pub open spec fn is_ascii_text(s: Seq<char>) -> bool {
    forall|i: int| 0 <= i < s.len() ==> (#[trigger] s[i] as u32) < 128
}

/// `u` is the ASCII text `s` with its letters upper-cased.
pub open spec fn ascii_upper_of(s: Seq<char>, u: Seq<char>) -> bool {
    &&& u.len() == s.len()
    &&& forall|i: int| 0 <= i < s.len() ==> ascii_upper_matches(#[trigger] s[i], u[i])
}

/// Relies on `str::to_uppercase`: the result depends on the characters alone,
/// and on ASCII text it upper-cases the letters one for one.
#[verifier::external_body]
fn uppercase(s: &str) -> (r: String)
    ensures
        r@ == upper_of(s@),
        is_ascii_text(s@) ==> ascii_upper_of(s@, r@),
{
    s.to_uppercase()
}

fn contains_name(v: &Vec<String>, s: &String) -> (r: bool)
    ensures
        r == names(v@).contains(s@),
{
    let mut i: usize = 0;
    while i < v.len()
        invariant
            0 <= i <= v@.len(),
            forall|j: int| 0 <= j < i ==> v@[j]@ != s@,
        decreases v@.len() - i,
    {
        if v[i] == *s {
            assert(names(v@)[i as int] == s@);
            return true;
        }
        i = i + 1;
    }
    assert forall|j: int| 0 <= j < names(v@).len() implies names(v@)[j] != s@ by {
        assert(names(v@)[j] == v@[j]@);
    }
    false
}

fn push_upto(kept: &mut Vec<String>, from: &Vec<String>, cap: usize, prefix: Ghost<Seq<Seq<char>>>)
    requires
        names(old(kept)@) == dedup_capped(prefix@, cap as nat),
    ensures
        names(final(kept)@) == dedup_capped(prefix@ + names(from@), cap as nat),
{
    let ghost pre = prefix@;
    let mut i: usize = 0;
    assert(pre + names(from@).take(0) =~= pre);
    while i < from.len()
        invariant
            0 <= i <= from@.len(),
            names(kept@) == dedup_capped(pre + names(from@).take(i as int), cap as nat),
        decreases from@.len() - i,
    {
        let ghost all = pre + names(from@).take(i as int + 1);
        assert(all.drop_last() =~= pre + names(from@).take(i as int));
        assert(all.last() == from@[i as int]@);
        let dup = contains_name(kept, &from[i]);
        if !dup && kept.len() < cap {
            kept.push(from[i].clone());
            assert(names(kept@) =~= dedup_capped(all.drop_last(), cap as nat).push(all.last()));
        }
        i = i + 1;
    }
    assert(names(from@).take(from@.len() as int) =~= names(from@));
}

impl AppConfig {
    /// The symbols on display: default pairs then custom pairs, each once, at
    /// most `max_display_pairs` of them.
    pub fn get_all_symbols(&self) -> (r: Vec<String>)
        ensures
            names(r@) == self.trading_pairs@.shown(),
    {
        let pairs = &self.trading_pairs;
        let mut kept: Vec<String> = Vec::new();
        assert(names(kept@) =~= dedup_capped(Seq::empty(), pairs.max_display_pairs as nat));
        push_upto(&mut kept, &pairs.default_pairs, pairs.max_display_pairs, Ghost(Seq::empty()));
        assert(Seq::<Seq<char>>::empty() + names(pairs.default_pairs@) =~= names(
            pairs.default_pairs@,
        ));
        push_upto(
            &mut kept,
            &pairs.custom_pairs,
            pairs.max_display_pairs,
            Ghost(names(pairs.default_pairs@)),
        );
        kept
    }

    /// Adds a custom pair, upper-cased. Refused (false, nothing changed) when it
    /// is already a custom pair or when the display is full.
    pub fn add_custom_pair(&mut self, symbol: String) -> (r: bool)
        ensures
            is_ascii_text(symbol@) ==> ascii_upper_of(symbol@, upper_of(symbol@)),
            r == old(self).trading_pairs@.can_add(upper_of(symbol@)),
            final(self).trading_pairs@ == old(self).trading_pairs@.after_add(upper_of(symbol@)),
            final(self).refresh_interval == old(self).refresh_interval,
            final(self).rest() == old(self).rest(),
    {
        let upper = uppercase(symbol.as_str());
        self.add_normalized_pair(upper)
    }

    /// Adds `symbol` as given to the custom pairs. Refused (false, nothing
    /// changed) when it is already a custom pair or when the display is full.
    pub fn add_normalized_pair(&mut self, symbol: String) -> (r: bool)
        ensures
            r == old(self).trading_pairs@.can_add(symbol@),
            final(self).trading_pairs@ == old(self).trading_pairs@.after_add(symbol@),
            final(self).refresh_interval == old(self).refresh_interval,
            final(self).rest() == old(self).rest(),
    {
        if contains_name(&self.trading_pairs.custom_pairs, &symbol) {
            return false;
        }
        let shown = self.get_all_symbols();
        assert(shown@.len() == names(shown@).len());
        if shown.len() >= self.trading_pairs.max_display_pairs {
            return false;
        }
        let ghost before = self.trading_pairs@;
        self.trading_pairs.custom_pairs.push(symbol);
        assert(self.trading_pairs@.custom =~= before.custom.push(symbol@));
        assert(self.trading_pairs@ == before.after_add(symbol@));
        true
    }

    /// Removes a custom pair, upper-cased. Refused (false, nothing changed) when
    /// it is not a custom pair; default pairs cannot be removed.
    pub fn remove_custom_pair(&mut self, symbol: &str) -> (r: bool)
        ensures
            is_ascii_text(symbol@) ==> ascii_upper_of(symbol@, upper_of(symbol@)),
            r == old(self).trading_pairs@.can_remove(upper_of(symbol@)),
            final(self).trading_pairs@ == old(self).trading_pairs@.after_remove(upper_of(symbol@)),
            final(self).refresh_interval == old(self).refresh_interval,
            final(self).rest() == old(self).rest(),
    {
        let upper = uppercase(symbol);
        self.remove_normalized_pair(&upper)
    }

    /// Removes the first occurrence of `symbol`, as given, from the custom
    /// pairs. Refused (false, nothing changed) when it is not a custom pair.
    pub fn remove_normalized_pair(&mut self, symbol: &String) -> (r: bool)
        ensures
            r == old(self).trading_pairs@.can_remove(symbol@),
            final(self).trading_pairs@ == old(self).trading_pairs@.after_remove(symbol@),
            final(self).refresh_interval == old(self).refresh_interval,
            final(self).rest() == old(self).rest(),
    {
        let ghost before = self.trading_pairs@;
        let ghost c = before.custom;
        proof {
            c.index_of_first_ensures(symbol@);
        }
        let mut i: usize = 0;
        while i < self.trading_pairs.custom_pairs.len()
            invariant
                self.trading_pairs@ == before,
                before == old(self).trading_pairs@,
                self.refresh_interval == old(self).refresh_interval,
                self.rest() == old(self).rest(),
                c == before.custom,
                0 <= i <= c.len(),
                forall|j: int| 0 <= j < i ==> c[j] != symbol@,
                match c.index_of_first(symbol@) {
                    Some(index) => {
                        &&& c.contains(symbol@)
                        &&& 0 <= index < c.len()
                        &&& c[index] == symbol@
                        &&& forall|j: int| 0 <= j < index < c.len() ==> c[j] != symbol@
                    },
                    None => { !c.contains(symbol@) },
                },
            decreases c.len() - i,
        {
            assert(c[i as int] == self.trading_pairs.custom_pairs@[i as int]@);
            if self.trading_pairs.custom_pairs[i] == *symbol {
                assert(c.contains(symbol@));
                assert(c.index_of_first(symbol@) == Some(i as int));
                self.trading_pairs.custom_pairs.remove(i);
                assert(self.trading_pairs@.custom =~= c.remove(i as int));
                return true;
            }
            i = i + 1;
        }
        assert(!c.contains(symbol@));
        false
    }
}

/// Default pairs of a fresh configuration.
pub open spec fn default_pair_names() -> Seq<Seq<char>> {
    seq![
        "BTCUSDT"@,
        "ETHUSDT"@,
        "BNBUSDT"@,
        "ADAUSDT"@,
        "DOTUSDT"@,
        "LINKUSDT"@,
        "LTCUSDT"@,
        "XRPUSDT"@,
    ]
}

fn strings_of(items: &[&str]) -> (r: Vec<String>)
    ensures
        r@.len() == items@.len(),
        forall|i: int| 0 <= i < items@.len() ==> r@[i]@ == items@[i]@,
{
    let mut r: Vec<String> = Vec::new();
    let mut i: usize = 0;
    while i < items.len()
        invariant
            0 <= i <= items@.len(),
            r@.len() == i,
            forall|j: int| 0 <= j < i ==> r@[j]@ == items@[j]@,
        decreases items@.len() - i,
    {
        r.push(String::from_str(items[i]));
        i = i + 1;
    }
    r
}

impl Default for AppConfig {
    /// Refresh every 20 seconds, the eight default pairs, no custom pair, at
    /// most 20 pairs on display.
    fn default() -> (r: Self)
        ensures
            r.refresh_interval == 20,
            r.trading_pairs@ == (PairSet { defaults: default_pair_names(), custom: Seq::empty(), max: 20 }),
            r.binance_api_url@ == "https://api.binance.com"@,
            r.rest() == (ConfigRest {
                symbols: seq!["BTCUSDT"@, "ETHUSDT"@, "BNBUSDT"@],
                api_url: "https://api.binance.com"@,
                theme: seq!["#00ff00"@, "#ffff00"@, "#000000"@, "#ffffff"@],
            }),
    {
        let defaults = strings_of(
            &["BTCUSDT", "ETHUSDT", "BNBUSDT", "ADAUSDT", "DOTUSDT", "LINKUSDT", "LTCUSDT", "XRPUSDT"],
        );
        let r = AppConfig {
            refresh_interval: 20,
            symbols: strings_of(&["BTCUSDT", "ETHUSDT", "BNBUSDT"]),
            binance_api_url: String::from_str("https://api.binance.com"),
            theme: ThemeConfig {
                primary: String::from_str("#00ff00"),
                secondary: String::from_str("#ffff00"),
                background: String::from_str("#000000"),
                text: String::from_str("#ffffff"),
            },
            trading_pairs: TradingPairsConfig {
                default_pairs: defaults,
                custom_pairs: Vec::new(),
                max_display_pairs: 20,
            },
        };
        assert(r.trading_pairs@.defaults =~= default_pair_names());
        assert(r.rest().symbols =~= seq!["BTCUSDT"@, "ETHUSDT"@, "BNBUSDT"@]);
        assert(r.rest().theme =~= seq!["#00ff00"@, "#ffff00"@, "#000000"@, "#ffffff"@]);
        assert(r.trading_pairs@.custom =~= Seq::<Seq<char>>::empty());
        r
    }
}

proof fn lemma_dedup_capped_valid(all: Seq<Seq<char>>, cap: nat)
    ensures
        dedup_capped(all, cap).no_duplicates(),
        dedup_capped(all, cap).len() <= cap,
    decreases all.len(),
{
    if all.len() > 0 {
        lemma_dedup_capped_valid(all.drop_last(), cap);
    }
}

/// The symbols on display never repeat and never number more than the
/// display limit.
pub proof fn lemma_shown_unique_and_bounded(p: PairSet)
    ensures
        p.shown().no_duplicates(),
        p.shown().len() <= p.max,
{
    lemma_dedup_capped_valid(p.defaults + p.custom, p.max);
}

/// Adding the same pair twice in a row: the second attempt is refused and
/// leaves the configuration, and so the number of symbols on display, as it
/// was.
pub proof fn lemma_add_twice_refused(p: PairSet, s: Seq<char>)
    ensures
        !p.after_add(s).can_add(s),
        p.after_add(s).after_add(s) == p.after_add(s),
        p.after_add(s).after_add(s).shown().len() == p.after_add(s).shown().len(),
{
    if p.can_add(s) {
        assert(p.after_add(s).custom.last() == s);
    }
}

/// Removing the same pair twice in a row: the second attempt is refused, as
/// long as no custom pair is listed twice.
pub proof fn lemma_remove_twice_refused(p: PairSet, s: Seq<char>)
    requires
        p.custom.no_duplicates(),
    ensures
        !p.after_remove(s).can_remove(s),
{
    p.custom.index_of_first_ensures(s);
    match p.custom.index_of_first(s) {
        Some(i) => {
            let c = p.custom.remove(i);
            assert forall|j: int| 0 <= j < c.len() implies c[j] != s by {
                if j < i {
                    assert(c[j] == p.custom[j]);
                } else {
                    assert(c[j] == p.custom[j + 1]);
                }
            }
        },
        None => {},
    }
}

/// Once as many symbols are on display as the limit allows, every addition
/// is refused, whatever the symbol.
pub proof fn lemma_full_refuses(p: PairSet, s: Seq<char>)
    requires
        p.shown().len() >= p.max,
    ensures
        !p.can_add(s),
        p.after_add(s) == p,
{
}

/// A successful addition keeps custom pairs free of repeats.
pub proof fn lemma_add_keeps_custom_unique(p: PairSet, s: Seq<char>)
    requires
        p.custom.no_duplicates(),
    ensures
        p.after_add(s).custom.no_duplicates(),
{
}

} // verus!
