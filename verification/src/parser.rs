//! From a raw intraday record to observations.
//!
//! A record is a JSON object with the instrument's symbol under
//! `"Meta Data"` / `"2. Symbol"` and, under `"Time Series (1min)"`, one member
//! per timestamp that holds the opening price and the volume as strings.
//! Observations come out in the order in which the time series is walked; they
//! are not sorted again.
//!
//! Numbers are read permissively: a price or volume string that is no number
//! counts as zero. Only a missing or non-string field fails the record.

use vstd::prelude::*;
use crate::error::{CustomError, Malformed};
use crate::json::{json_of, member, members, object, text, Json};
use crate::number::{decimal_value, parse_unsigned, unsigned_value, Decimal};

verus! {

/// One price and volume reading of an instrument.
#[derive(Clone, Debug)]
pub struct StockData {
    pub symbol: String,
    pub price: Decimal,
    pub volume: u64,
    pub timestamp: String,
}

/// The mathematical content of a [`StockData`].
pub struct Observation {
    pub symbol: Seq<char>,
    pub price: Decimal,
    pub volume: u64,
    pub timestamp: Seq<char>,
}

impl View for StockData {
    type V = Observation;

    open spec fn view(&self) -> Observation {
        Observation {
            symbol: self.symbol@,
            price: self.price,
            volume: self.volume,
            timestamp: self.timestamp@,
        }
    }
}

/// The observations that a vector holds.
pub open spec fn observations(data: Seq<StockData>) -> Seq<Observation> {
    data.map_values(|d: StockData| d@)
}

/// One member of the time series before its numbers are read: the timestamp
/// and the two fields, each `None` where it is absent or no string.
#[derive(Clone, Debug)]
pub struct RawEntry {
    pub timestamp: String,
    pub open: Option<String>,
    pub volume: Option<String>,
}

/// The mathematical content of a [`RawEntry`].
pub struct RawEntryView {
    pub timestamp: Seq<char>,
    pub open: Option<Seq<char>>,
    pub volume: Option<Seq<char>>,
}

/// The characters of a field that is there.
pub open spec fn text_view(t: Option<String>) -> Option<Seq<char>> {
    match t {
        Some(s) => Some(s@),
        None => None,
    }
}

impl View for RawEntry {
    type V = RawEntryView;

    open spec fn view(&self) -> RawEntryView {
        RawEntryView {
            timestamp: self.timestamp@,
            open: text_view(self.open),
            volume: text_view(self.volume),
        }
    }
}

/// The entries that a vector holds.
pub open spec fn raw_entries(entries: Seq<RawEntry>) -> Seq<RawEntryView> {
    entries.map_values(|e: RawEntry| e@)
}

/// The price that a string stands for: zero where it is no decimal.
pub open spec fn price_of(text: Seq<char>) -> Decimal {
    match decimal_value(text) {
        Some(price) => price,
        None => Decimal::zero(),
    }
}

/// The volume that a string stands for: zero where it is no unsigned integer.
pub open spec fn volume_of(text: Seq<char>) -> u64 {
    match unsigned_value(text) {
        Some(volume) => volume,
        None => 0,
    }
}

/// What an entry lacks, the price before the volume.
pub open spec fn defect(entry: RawEntryView) -> Option<Malformed> {
    if entry.open is None {
        Some(Malformed::Price)
    } else if entry.volume is None {
        Some(Malformed::Volume)
    } else {
        None
    }
}

/// The defect of the first entry that has one.
pub open spec fn first_defect(entries: Seq<RawEntryView>) -> Option<Malformed>
    decreases entries.len(),
{
    if entries.len() == 0 {
        None
    } else if defect(entries[0]) is Some {
        defect(entries[0])
    } else {
        first_defect(entries.drop_first())
    }
}

/// The observation that an entry with both fields gives.
pub open spec fn observation(symbol: Seq<char>, entry: RawEntryView) -> Observation {
    Observation {
        symbol,
        price: price_of(entry.open->0),
        volume: volume_of(entry.volume->0),
        timestamp: entry.timestamp,
    }
}

/// The observations that the entries of a time series give, in their order,
/// or the defect of the first entry that lacks a field.
pub open spec fn observations_of(symbol: Seq<char>, entries: Seq<RawEntryView>) -> Result<
    Seq<Observation>,
    CustomError,
> {
    match first_defect(entries) {
        Some(d) => Err(CustomError::MalformedInput(d)),
        None => Ok(entries.map_values(|e: RawEntryView| observation(symbol, e))),
    }
}

/// The time series of a record as raw entries.
pub open spec fn entries_of(members: Seq<(Seq<char>, Json)>) -> Seq<RawEntryView> {
    members.map_values(
        |m: (Seq<char>, Json)|
            RawEntryView {
                timestamp: m.0,
                open: m.1.member("1. open"@).text(),
                volume: m.1.member("5. volume"@).text(),
            },
    )
}

/// What a record parses to. The time series is looked at first, then the
/// symbol, then the entries in their order.
pub open spec fn parsed(record: Json) -> Result<Seq<Observation>, CustomError> {
    match record.member("Time Series (1min)"@).members() {
        None => Err(CustomError::MalformedInput(Malformed::TimeSeries)),
        Some(members) => match record.member("Meta Data"@).member("2. Symbol"@).text() {
            None => Err(CustomError::MalformedInput(Malformed::Symbol)),
            Some(symbol) => observations_of(symbol, entries_of(members)),
        },
    }
}

/// Entries without a defect can be skipped when looking for the first one.
proof fn lemma_first_defect(entries: Seq<RawEntryView>, k: int)
    requires
        0 <= k <= entries.len(),
        forall|j: int| 0 <= j < k ==> defect(#[trigger] entries[j]) is None,
    ensures
        first_defect(entries) == if k < entries.len() && defect(entries[k]) is Some {
            defect(entries[k])
        } else {
            first_defect(entries.subrange(k, entries.len() as int))
        },
    decreases k,
{
    if k == 0 {
        assert(entries.subrange(0, entries.len() as int) =~= entries);
    } else {
        let rest = entries.drop_first();
        assert(defect(entries[0]) is None);
        assert forall|j: int| 0 <= j < k - 1 implies defect(#[trigger] rest[j]) is None by {
            assert(rest[j] == entries[j + 1]);
        }
        lemma_first_defect(rest, k - 1);
        assert(rest.subrange(k - 1, rest.len() as int) =~= entries.subrange(
            k,
            entries.len() as int,
        ));
    }
}

/// Reads a price, with zero for a string that is no decimal.
pub fn price_or_zero(text: &str) -> (r: Decimal)
    ensures
        r == price_of(text@),
{
    match Decimal::parse(text) {
        Some(price) => price,
        None => Decimal { units: 0 },
    }
}

/// Reads a volume, with zero for a string that is no unsigned integer.
pub fn volume_or_zero(text: &str) -> (r: u64)
    ensures
        r == volume_of(text@),
{
    match parse_unsigned(text) {
        Some(volume) => volume,
        None => 0,
    }
}

/// Turns the entries of a time series into observations of `symbol`, in their
/// order. Fails on the first entry that lacks its price or its volume.
pub fn observations_from_entries(symbol: &str, entries: &Vec<RawEntry>) -> (r: Result<
    Vec<StockData>,
    CustomError,
>)
    ensures
        match r {
            Ok(data) => observations_of(symbol@, raw_entries(entries@)) == Ok::<
                Seq<Observation>,
                CustomError,
            >(observations(data@)),
            Err(e) => observations_of(symbol@, raw_entries(entries@)) == Err::<
                Seq<Observation>,
                CustomError,
            >(e),
        },
{
    let ghost raw = raw_entries(entries@);
    let mut data: Vec<StockData> = Vec::new();
    let mut i: usize = 0;
    while i < entries.len()
        invariant
            i <= entries.len(),
            raw == raw_entries(entries@),
            data@.len() == i,
            forall|j: int| 0 <= j < i ==> defect(#[trigger] raw[j]) is None,
            forall|j: int| 0 <= j < i ==> (#[trigger] data@[j])@ == observation(symbol@, raw[j]),
        decreases entries.len() - i,
    {
        let entry = &entries[i];
        assert(raw[i as int] == entry@);
        match (&entry.open, &entry.volume) {
            (Some(open), Some(volume)) => {
                data.push(
                    StockData {
                        symbol: symbol.to_owned(),
                        price: price_or_zero(open.as_str()),
                        volume: volume_or_zero(volume.as_str()),
                        timestamp: entry.timestamp.clone(),
                    },
                );
            },
            (None, _) => {
                proof {
                    lemma_first_defect(raw, i as int);
                }
                return Err(CustomError::MalformedInput(Malformed::Price));
            },
            (Some(_), None) => {
                proof {
                    lemma_first_defect(raw, i as int);
                }
                return Err(CustomError::MalformedInput(Malformed::Volume));
            },
        }
        i += 1;
    }
    proof {
        lemma_first_defect(raw, raw.len() as int);
        assert(raw.subrange(raw.len() as int, raw.len() as int) =~= Seq::<RawEntryView>::empty());
        assert(observations(data@) =~= raw.map_values(|e: RawEntryView| observation(symbol@, e)));
    }
    Ok(data)
}

/// A field as an owned string.
fn owned(text: Option<&str>) -> (r: Option<String>)
    ensures
        match text {
            Some(s) => text_view(r) == Some(s@),
            None => r is None,
        },
{
    match text {
        Some(s) => Some(s.to_owned()),
        None => None,
    }
}

/// Parses a raw record into observations, one per member of its time series
/// and in the series' own order, each with the record's symbol.
///
/// Fails with `MalformedInput` where the time series is absent or no object,
/// where the symbol is absent or no string, or where an entry's price or
/// volume is absent or no string; the first of these in that order decides.
pub fn parse_alpha_vantage_response(response: serde_json::Value) -> (r: Result<
    Vec<StockData>,
    CustomError,
>)
    ensures
        match r {
            Ok(data) => parsed(json_of(response)) == Ok::<Seq<Observation>, CustomError>(
                observations(data@),
            ),
            Err(e) => parsed(json_of(response)) == Err::<Seq<Observation>, CustomError>(e),
        },
        r matches Ok(data) ==> {
            &&& Some(data@.len() as int) == match json_of(response).member(
                "Time Series (1min)"@,
            ).members() {
                Some(members) => Some(members.len() as int),
                None => None,
            }
            &&& forall|i: int|
                0 <= i < data@.len() ==> Some((#[trigger] data@[i]).symbol@) == json_of(
                    response,
                ).member("Meta Data"@).member("2. Symbol"@).text()
        },
{
    let series = match object(member(&response, "Time Series (1min)")) {
        Some(series) => series,
        None => {
            return Err(CustomError::MalformedInput(Malformed::TimeSeries));
        },
    };
    let symbol = match text(member(member(&response, "Meta Data"), "2. Symbol")) {
        Some(symbol) => symbol,
        None => {
            return Err(CustomError::MalformedInput(Malformed::Symbol));
        },
    };
    let fields = members(series);
    let ghost wanted = entries_of(json_of(response).member("Time Series (1min)"@).members()->0);
    let mut entries: Vec<RawEntry> = Vec::new();
    let mut i: usize = 0;
    while i < fields.len()
        invariant
            i <= fields.len(),
            fields@.len() == wanted.len(),
            entries@.len() == i,
            forall|j: int|
                0 <= j < fields@.len() ==> wanted[j] == (RawEntryView {
                    timestamp: (#[trigger] fields@[j]).0@,
                    open: json_of(*fields@[j].1).member("1. open"@).text(),
                    volume: json_of(*fields@[j].1).member("5. volume"@).text(),
                }),
            forall|j: int| 0 <= j < i ==> (#[trigger] entries@[j])@ == wanted[j],
        decreases fields.len() - i,
    {
        let (timestamp, data) = fields[i];
        entries.push(
            RawEntry {
                timestamp: timestamp.clone(),
                open: owned(text(member(data, "1. open"))),
                volume: owned(text(member(data, "5. volume"))),
            },
        );
        i += 1;
    }
    assert(raw_entries(entries@) =~= wanted);
    let r = observations_from_entries(symbol, &entries);
    proof {
        if r is Ok {
            let data = r->Ok_0;
            let made = wanted.map_values(|e: RawEntryView| observation(symbol@, e));
            assert(observations(data@) == made);
            assert forall|k: int| 0 <= k < data@.len() implies (#[trigger] data@[k]).symbol@
                == symbol@ by {
                assert(observations(data@)[k] == made[k]);
            }
        }
    }
    r
}

} // verus!
