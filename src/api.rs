use vstd::prelude::*;

verus! {

/// 24-hour statistics of one trading pair; prices are kept as the decimal
/// strings the exchange sends.
pub struct TickerPrice {
    pub symbol: String,
    pub price: String,
    pub price_change: String,
    pub price_change_percent: String,
    pub volume: String,
    pub high_24h: String,
    pub low_24h: String,
}

/// One candle of a candlestick series.
pub struct KlineData {
    pub open_time: i64,
    pub open: String,
    pub high: String,
    pub low: String,
    pub close: String,
    pub volume: String,
    pub close_time: i64,
}

/// A value read from an exchange response, as far as the dashboard tells
/// values apart: a string, an integer that fits in `i64`, or anything else.
pub enum Field {
    Text(String),
    Int(i64),
    Other,
}

/// Text of a field, or "0" where the field holds no string.
pub open spec fn text_or_zero(f: Field) -> Seq<char> {
    match f {
        Field::Text(s) => s@,
        _ => "0"@,
    }
}

/// Integer of a field, or 0 where the field holds no integer.
pub open spec fn int_or_zero(f: Field) -> i64 {
    match f {
        Field::Int(n) => n,
        _ => 0,
    }
}

fn field_text(f: &Field) -> (r: String)
    ensures
        r@ == text_or_zero(*f),
{
    match f {
        Field::Text(s) => s.clone(),
        _ => String::from_str("0"),
    }
}

fn field_int(f: &Field) -> (r: i64)
    ensures
        r == int_or_zero(*f),
{
    match f {
        Field::Int(n) => *n,
        _ => 0,
    }
}

/// Whether a ticker holds, field for field, what the given response fields say.
pub open spec fn ticker_matches(
    t: TickerPrice,
    symbol: Seq<char>,
    last: Field,
    change: Field,
    change_percent: Field,
    volume: Field,
    high: Field,
    low: Field,
) -> bool {
    &&& t.symbol@ == symbol
    &&& t.price@ == text_or_zero(last)
    &&& t.price_change@ == text_or_zero(change)
    &&& t.price_change_percent@ == text_or_zero(change_percent)
    &&& t.volume@ == text_or_zero(volume)
    &&& t.high_24h@ == text_or_zero(high)
    &&& t.low_24h@ == text_or_zero(low)
}

/// Whether a candle holds what the given record says: open time, open, high,
/// low, close, volume and close time, in that order.
pub open spec fn kline_matches(k: KlineData, row: Seq<Field>) -> bool {
    &&& row.len() >= 7
    &&& k.open_time == int_or_zero(row[0])
    &&& k.open@ == text_or_zero(row[1])
    &&& k.high@ == text_or_zero(row[2])
    &&& k.low@ == text_or_zero(row[3])
    &&& k.close@ == text_or_zero(row[4])
    &&& k.volume@ == text_or_zero(row[5])
    &&& k.close_time == int_or_zero(row[6])
}

/// The records that hold at least the seven fields of a candle, in order.
pub open spec fn complete_rows(rows: Seq<Vec<Field>>) -> Seq<Seq<Field>>
    decreases rows.len(),
{
    if rows.len() == 0 {
        Seq::empty()
    } else {
        let front = complete_rows(rows.drop_last());
        if rows.last()@.len() >= 7 {
            front.push(rows.last()@)
        } else {
            front
        }
    }
}

impl TickerPrice {
    /// Builds a ticker from the fields of a response; a field that holds no
    /// string reads as "0".
    pub fn from_fields(
        symbol: &String,
        last: &Field,
        change: &Field,
        change_percent: &Field,
        volume: &Field,
        high: &Field,
        low: &Field,
    ) -> (r: TickerPrice)
        ensures
            ticker_matches(r, symbol@, *last, *change, *change_percent, *volume, *high, *low),
    {
        TickerPrice {
            symbol: symbol.clone(),
            price: field_text(last),
            price_change: field_text(change),
            price_change_percent: field_text(change_percent),
            volume: field_text(volume),
            high_24h: field_text(high),
            low_24h: field_text(low),
        }
    }
}

impl KlineData {
    /// Reads a candle from one record; a record with fewer than seven fields
    /// gives none, and a field of the wrong kind reads as zero.
    pub fn from_row(row: &Vec<Field>) -> (r: Option<KlineData>)
        ensures
            r.is_some() == (row@.len() >= 7),
            r matches Some(k) ==> kline_matches(k, row@),
    {
        if row.len() < 7 {
            return None;
        }
        Some(
            KlineData {
                open_time: field_int(&row[0]),
                open: field_text(&row[1]),
                high: field_text(&row[2]),
                low: field_text(&row[3]),
                close: field_text(&row[4]),
                volume: field_text(&row[5]),
                close_time: field_int(&row[6]),
            },
        )
    }
}

/// Reads the candles of a response, oldest first, skipping records with
/// fewer than seven fields.
pub fn klines_from_rows(rows: &Vec<Vec<Field>>) -> (r: Vec<KlineData>)
    ensures
        r@.len() == complete_rows(rows@).len(),
        forall|i: int| 0 <= i < r@.len() ==> kline_matches(r@[i], complete_rows(rows@)[i]),
{
    let mut r: Vec<KlineData> = Vec::new();
    let mut i: usize = 0;
    while i < rows.len()
        invariant
            0 <= i <= rows@.len(),
            r@.len() == complete_rows(rows@.take(i as int)).len(),
            forall|j: int|
                0 <= j < r@.len() ==> kline_matches(r@[j], complete_rows(rows@.take(i as int))[j]),
        decreases rows@.len() - i,
    {
        assert(rows@.take(i as int + 1).drop_last() =~= rows@.take(i as int));
        match KlineData::from_row(&rows[i]) {
            Some(k) => {
                r.push(k);
            },
            None => {},
        }
        i = i + 1;
    }
    assert(rows@.take(rows@.len() as int) =~= rows@);
    r
}

} // verus!
