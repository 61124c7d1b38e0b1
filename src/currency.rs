//! Exchange rates against the US dollar, and the cache that keeps them
//! fresh.

use vstd::prelude::*;
use crate::gcd::gcd;
use crate::json::{read_response, response_fields};
use crate::quantity::{Quantity, number_value, fits_u64, fraction, lemma_fraction_of_same_value};
use crate::units::{CurrencyUnit, currency_named, lemma_currency_named_code};

verus! {

/// Number of currencies in `CurrencyUnit`.
pub const CURRENCY_COUNT: usize = 6;

/// The pricing source's endpoint for the latest rates.
pub const API_BASE_URL: &'static str = "https://openexchangerates.org/api/latest.json";

/// Seconds after which the whole rate table is stale: one week.
pub const EXPIRE_AFTER: i64 = 60 * 60 * 24 * 7;

/// What went wrong while obtaining exchange rates.
#[derive(Clone, Copy, Debug, PartialEq, Eq, Structural)]
pub enum ApiErrorKind {
    /// No credential for the pricing source.
    MissingCredential,
    /// The request failed or the source answered with an error.
    Request,
    /// The response is not a JSON document.
    InvalidResponse,
    /// The response has no `rates` object.
    RatesNotFound,
    /// A rate in the response is not a number, or a known currency's rate
    /// is not a positive number that 64-bit terms hold exactly.
    InvalidRateFormat,
    /// The response has no rate for the currency asked for.
    RateNotFound,
}

/// A failure to obtain exchange rates, with a message for the user.
#[derive(Clone, Debug)]
pub struct APIError {
    pub kind: ApiErrorKind,
    pub message: String,
}

impl APIError {
    pub fn new(kind: ApiErrorKind, message: &str) -> (r: APIError)
        ensures
            r.kind == kind,
            r.message@ == message@,
    {
        APIError { kind, message: String::from_str(message) }
    }

    /// `"API error: <message>"`.
    pub fn to_string(&self) -> (r: String)
        ensures
            r@ == "API error: "@ + self.message@,
    {
        let mut s = String::from_str("API error: ");
        s.append(self.message.as_str());
        s
    }
}

/// The address to request the latest rates from with credential `app_id`,
/// or a `MissingCredential` error without one.
pub fn request_url(app_id: Option<&str>) -> (r: Result<String, APIError>)
    ensures
        match app_id {
            Some(id) => r is Ok && r->Ok_0@ == API_BASE_URL@ + "?app_id="@ + id@,
            None => r is Err && r->Err_0.kind == ApiErrorKind::MissingCredential && r->Err_0.message@
                == "API key not found"@,
        },
{
    match app_id {
        Some(id) => {
            let mut url = String::from_str(API_BASE_URL);
            url.append("?app_id=");
            url.append(id);
            Ok(url)
        },
        None => Err(APIError::new(ApiErrorKind::MissingCredential, "API key not found")),
    }
}

/// One member of a response's `rates` object: the currency code and, where
/// the member's value is a number, its decimal text.
#[derive(Clone, Debug)]
pub struct RateEntry {
    pub code: String,
    pub rate: Option<String>,
}

/// A member of a `rates` object as the library reads it: the code, and the
/// number's text where the value is a number.
pub type EntryView = (Seq<char>, Option<Seq<char>>);

pub open spec fn entry_view(e: RateEntry) -> EntryView {
    (
        e.code@,
        match e.rate {
            Some(t) => Some(t@),
            None => None,
        },
    )
}

pub open spec fn entries_view(es: Seq<RateEntry>) -> Seq<EntryView> {
    es.map_values(|e: RateEntry| entry_view(e))
}

/// The rate that a number's text gives, where it is positive and fits; a
/// rate that cannot serve as a divisor gives none.
pub open spec fn rate_of_text(text: Seq<char>) -> Option<(nat, nat)> {
    match number_value(text) {
        Some(v) => if v.0 > 0 {
            Some(v)
        } else {
            None
        },
        None => None,
    }
}

/// An entry that fails the whole refresh: its value is not a number, or it
/// names a known currency with a number that cannot serve as its rate (zero,
/// negative, or beyond what 64-bit terms hold exactly).
pub open spec fn entry_is_malformed(e: EntryView) -> bool {
    match e.1 {
        None => true,
        Some(t) => currency_named(e.0) is Some && rate_of_text(t) is None,
    }
}

pub open spec fn empty_rates() -> Seq<Option<(nat, nat)>> {
    Seq::new(CURRENCY_COUNT as nat, |i: int| None)
}

/// The rate table that a refresh with `entries` builds: each known currency
/// gets the rate of the last entry that names it; unknown codes are
/// skipped.
pub open spec fn rates_from_entries(entries: Seq<EntryView>) -> Seq<Option<(nat, nat)>>
    decreases entries.len(),
{
    if entries.len() == 0 {
        empty_rates()
    } else {
        let t = rates_from_entries(entries.drop_last());
        let e = entries.last();
        match (currency_named(e.0), e.1) {
            (Some(c), Some(text)) => match rate_of_text(text) {
                Some(v) => t.update(c.spec_index() as int, Some(v)),
                None => t,
            },
            _ => t,
        }
    }
}

/// Well-formed rate tables: one slot per currency, each rate positive and
/// in lowest terms.
pub open spec fn rates_wf(t: Seq<Option<(nat, nat)>>) -> bool {
    &&& t.len() == CURRENCY_COUNT
    &&& forall|i: int| 0 <= i < t.len() && (#[trigger] t[i]) is Some ==> valid_rate(t[i]->Some_0)
}

/// Whether a table holds no rate.
pub open spec fn rates_empty(t: Seq<Option<(nat, nat)>>) -> bool {
    forall|i: int| 0 <= i < t.len() ==> (#[trigger] t[i]) is None
}

/// A positive exchange rate: how many units of a currency one US dollar
/// buys.
pub open spec fn valid_rate(r: (nat, nat)) -> bool {
    r.0 > 0 && r.1 > 0 && gcd(r.0, r.1) == 1 && fits_u64(r)
}

/// The latest known rate of each currency.
#[derive(Clone, Debug)]
pub struct RateTable {
    rates: Vec<Option<Quantity>>,
}

impl View for RateTable {
    /// The rate of each currency, by `CurrencyUnit::spec_index`.
    type V = Seq<Option<(nat, nat)>>;

    closed spec fn view(&self) -> Seq<Option<(nat, nat)>> {
        self.rates@.map_values(|r: Option<Quantity>| match r {
            Some(q) => Some(q@),
            None => None,
        })
    }
}

impl RateTable {
    pub open spec fn wf(self) -> bool {
        rates_wf(self@)
    }

    pub open spec fn spec_rate(self, c: CurrencyUnit) -> Option<(nat, nat)> {
        self@[c.spec_index() as int]
    }

    /// A table with no rates.
    pub fn empty() -> (r: RateTable)
        ensures
            r.wf(),
            r@ == empty_rates(),
            forall|c: CurrencyUnit| r.spec_rate(c) is None,
    {
        let r = RateTable { rates: vec![None, None, None, None, None, None] };
        assert(r@ =~= empty_rates());
        assert forall|c: CurrencyUnit| r.spec_rate(c) is None by {
            assert(r.rates@[c.spec_index() as int] is None);
        }
        r
    }

    /// The rate of currency `c`, if the table has one.
    pub fn rate(&self, c: CurrencyUnit) -> (r: Option<Quantity>)
        requires
            self.wf(),
        ensures
            match r {
                Some(q) => self.spec_rate(c) == Some(q@) && q.wf(),
                None => self.spec_rate(c) is None,
            },
    {
        let r = self.rates[c.index()];
        proof {
            if r is Some {
                Quantity::lemma_bounds(r->Some_0);
                assert(self@[c.spec_index() as int] == Some(r->Some_0@));
            }
        }
        r
    }

    /// The table with the rate of `c` set to `q`.
    pub fn set_rate(&mut self, c: CurrencyUnit, q: Quantity)
        requires
            old(self).wf(),
            q.wf(),
            q@.0 > 0,
        ensures
            final(self).wf(),
            final(self)@ == old(self)@.update(c.spec_index() as int, Some(q@)),
    {
        self.rates.set(c.index(), Some(q));
        proof {
            Quantity::lemma_bounds(q);
            assert(final(self)@ =~= old(self)@.update(c.spec_index() as int, Some(q@)));
        }
    }
}

/// The rate table built from `entries`, or the error that a malformed
/// entry causes.
fn rates_from_entries_exec(entries: &Vec<RateEntry>) -> (r: Result<RateTable, APIError>)
    ensures
        match r {
            Ok(t) => t.wf() && t@ == rates_from_entries(entries_view(entries@))
                && !has_malformed(entries_view(entries@)),
            Err(e) => e.kind == ApiErrorKind::InvalidRateFormat && has_malformed(entries_view(entries@)),
        },
{
    let ghost view = entries_view(entries@);
    let mut table = RateTable::empty();
    let mut i: usize = 0;
    while i < entries.len()
        invariant
            i <= entries@.len(),
            view == entries_view(entries@),
            table.wf(),
            table@ == rates_from_entries(view.subrange(0, i as int)),
            forall|j: int| 0 <= j < i ==> !entry_is_malformed(#[trigger] view[j]),
        decreases entries.len() - i,
    {
        let e = &entries[i];
        let ghost prefix = view.subrange(0, i + 1);
        assert(prefix.drop_last() =~= view.subrange(0, i as int));
        assert(prefix.last() == entry_view(entries@[i as int]));
        match &e.rate {
            None => {
                assert(entry_is_malformed(view[i as int]));
                return Err(APIError::new(ApiErrorKind::InvalidRateFormat, "Invalid rate format"));
            },
            Some(text) => {
                match CurrencyUnit::from_code(e.code.as_str()) {
                    None => {},
                    Some(c) => {
                        match Quantity::parse_number(text.as_str()) {
                            Some(q) => {
                                if q.is_zero() {
                                    assert(entry_is_malformed(view[i as int]));
                                    return Err(APIError::new(ApiErrorKind::InvalidRateFormat, "Invalid rate format"));
                                }
                                table.set_rate(c, q);
                            },
                            None => {
                                assert(entry_is_malformed(view[i as int]));
                                return Err(APIError::new(ApiErrorKind::InvalidRateFormat, "Invalid rate format"));
                            },
                        }
                    },
                }
            },
        }
        i = i + 1;
    }
    assert(view.subrange(0, i as int) =~= view);
    Ok(table)
}

/// Whether some entry is malformed.
pub open spec fn has_malformed(es: Seq<EntryView>) -> bool {
    exists|i: int| 0 <= i < es.len() && entry_is_malformed(#[trigger] es[i])
}

/// The fields of a pricing response as serde_json reads them: `None` where
/// the body is not JSON, else the integer `timestamp` (if any) and the
/// members of the `rates` object (if any).
pub type ResponseFields = Option<(Option<i64>, Option<Seq<EntryView>>)>;

/// What a refresh of state `s` with response fields `fields` at time `now`
/// gives: the new state, or why the refresh fails (and changes nothing).
pub open spec fn refresh_outcome(s: CacheState, fields: ResponseFields, now: int) -> Result<CacheState, ApiErrorKind> {
    match fields {
        None => Err(ApiErrorKind::InvalidResponse),
        Some(f) => match f.1 {
            None => Err(ApiErrorKind::RatesNotFound),
            Some(es) => if has_malformed(es) {
                Err(ApiErrorKind::InvalidRateFormat)
            } else {
                Ok(refreshed(s, es, stamp_of(f.0, now)))
            },
        },
    }
}

/// How a refresh of `c` from `old` to `new` at time `now` with `fetched`
/// ends: a failed fetch is passed on and a rejected response changes
/// nothing; after an accepted one the rate of `c` in the new table is
/// returned, or `RateNotFound`. `replaced` says whether the table was
/// replaced.
pub open spec fn refresh_result(
    old: CacheState,
    new: CacheState,
    c: CurrencyUnit,
    fetched: Result<String, APIError>,
    now: int,
    r: Result<Quantity, APIError>,
    replaced: bool,
) -> bool {
    match fetched {
        Err(e) => r == Err::<Quantity, APIError>(e) && new == old && !replaced,
        Ok(body) => match refresh_outcome(old, response_fields(body@), now) {
            Err(k) => r is Err && r->Err_0.kind == k && new == old && !replaced,
            Ok(t) => new == t && replaced && match t.rates[c.spec_index() as int] {
                Some(v) => r is Ok && r->Ok_0@ == v && r->Ok_0.wf(),
                None => r is Err && r->Err_0.kind == ApiErrorKind::RateNotFound,
            },
        },
    }
}

/// The whole state of a cache: the rate table, when it was last refreshed
/// (seconds since the epoch), and how long a refresh stays fresh.
pub struct CacheState {
    pub rates: Seq<Option<(nat, nat)>>,
    pub last_refreshed: Option<int>,
    pub expire_after: int,
}

/// The outcome of looking up a rate: the cached rate, or the need for a
/// refresh from the pricing source.
#[derive(Clone, Copy, Debug)]
pub enum RateLookup {
    Found(Quantity),
    Refresh,
}

/// Exchange rates against the US dollar with one freshness timestamp.
///
/// The table is refreshed as a whole: a lookup that finds the table stale,
/// or the rate missing, asks for a refresh; the caller fetches the latest
/// rates and hands the response to `finish_refresh_at`.
#[derive(Clone, Debug)]
pub struct ConversionCache {
    table: RateTable,
    expire_after: i64,
    last_time: Option<i64>,
}

impl View for ConversionCache {
    type V = CacheState;

    closed spec fn view(&self) -> CacheState {
        CacheState {
            rates: self.table@,
            last_refreshed: match self.last_time {
                Some(t) => Some(t as int),
                None => None,
            },
            expire_after: self.expire_after as int,
        }
    }
}

/// Relies on chrono::Utc::now: the current time, in whole seconds since the
/// epoch. Nothing is assumed of the value.
#[verifier::external_body]
fn now_seconds() -> (r: i64) {
    chrono::Utc::now().timestamp()
}

/// Whether state `s` is fresh at time `now`: refreshed less than
/// `expire_after` seconds before.
pub open spec fn is_fresh(s: CacheState, now: int) -> bool {
    match s.last_refreshed {
        Some(t) => now - t < s.expire_after,
        None => false,
    }
}

/// What a lookup of `c` at time `now` finds without a refresh.
pub open spec fn cached_rate(s: CacheState, c: CurrencyUnit, now: int) -> Option<(nat, nat)> {
    if is_fresh(s, now) {
        s.rates[c.spec_index() as int]
    } else {
        None
    }
}

/// The stamp of a refresh: the response's timestamp where it had one, else
/// the time of the refresh.
pub open spec fn stamp_of(timestamp: Option<i64>, now: int) -> int {
    match timestamp {
        Some(t) => t as int,
        None => now,
    }
}

/// The state after a successful refresh with `entries`, stamped `stamp`.
pub open spec fn refreshed(s: CacheState, entries: Seq<EntryView>, stamp: int) -> CacheState {
    CacheState { rates: rates_from_entries(entries), last_refreshed: Some(stamp), expire_after: s.expire_after }
}

impl ConversionCache {
    pub open spec fn wf(self) -> bool {
        &&& rates_wf(self@.rates)
        &&& self@.expire_after > 0
        &&& self@.last_refreshed is None ==> rates_empty(self@.rates)
        &&& self@.last_refreshed matches Some(t) ==> i64::MIN <= t <= i64::MAX
    }

    /// An empty, stale cache that expires after one week.
    pub fn new() -> (r: ConversionCache)
        ensures
            r.wf(),
            r@.rates == empty_rates(),
            r@.last_refreshed is None,
            r@.expire_after == EXPIRE_AFTER,
    {
        ConversionCache { table: RateTable::empty(), expire_after: EXPIRE_AFTER, last_time: None }
    }

    /// The current rate table.
    pub fn table(&self) -> (r: &RateTable)
        requires
            self.wf(),
        ensures
            r.wf(),
            r@ == self@.rates,
    {
        &self.table
    }

    /// When the table was last refreshed, in seconds since the epoch.
    pub fn last_refreshed(&self) -> (r: Option<i64>)
        ensures
            match r {
                Some(t) => self@.last_refreshed == Some(t as int),
                None => self@.last_refreshed is None,
            },
    {
        self.last_time
    }

    /// Whether the table is fresh at time `now`.
    pub fn is_fresh_at(&self, now: i64) -> (r: bool)
        ensures
            r == is_fresh(self@, now as int),
    {
        match self.last_time {
            Some(t) => (now as i128) - (t as i128) < self.expire_after as i128,
            None => false,
        }
    }

    /// The rows of the durable snapshot: one per currency with a rate, in
    /// declaration order, each stamped with the refresh time.
    pub fn snapshot(&self) -> (r: Vec<SnapshotRow>)
        requires
            self.wf(),
        ensures
            rows_view(r@) == snapshot_rows(self@, CURRENCY_COUNT as nat),
    {
        let stamp: i64 = match self.last_time {
            Some(t) => t,
            None => 0,
        };
        let currencies = CurrencyUnit::all();
        let mut rows: Vec<SnapshotRow> = Vec::new();
        let mut i: usize = 0;
        while i < currencies.len()
            invariant
                currencies@ == CurrencyUnit::spec_all(),
                i <= currencies@.len(),
                self.wf(),
                stamp == stamp_or_zero(self@),
                rows_view(rows@) == snapshot_rows(self@, i as nat),
            decreases currencies.len() - i,
        {
            let c = currencies[i];
            assert(c.spec_index() == i) by {
                assert(i < 6);
            }
            match self.table.rate(c) {
                Some(q) => {
                    rows.push(SnapshotRow { currency: String::from_str(c.code()), rate_num: q.numer(), rate_den: q.denom(), last_update: stamp });
                    assert(rows_view(rows@) =~= snapshot_rows(self@, (i + 1) as nat));
                },
                None => {},
            }
            i = i + 1;
        }
        rows
    }

    /// The cache that snapshot `rows` hold, or `None` where a row names no
    /// known currency or holds no positive rate.
    pub fn from_snapshot(rows: &Vec<SnapshotRow>) -> (r: Option<ConversionCache>)
        ensures
            match r {
                Some(c) => c.wf() && state_from_rows(rows_view(rows@)) == Some(c@),
                None => state_from_rows(rows_view(rows@)) is None,
            },
    {
        let mut table = RateTable::empty();
        let mut latest: i64 = i64::MIN;
        let mut i: usize = 0;
        while i < rows.len()
            invariant
                i <= rows@.len(),
                table.wf(),
                rates_from_rows(rows_view(rows@.subrange(0, i as int))) == Some(table@),
                latest == latest_update(rows_view(rows@.subrange(0, i as int))),
            decreases rows.len() - i,
        {
            let row = &rows[i];
            let ghost prefix = rows_view(rows@.subrange(0, i + 1));
            assert(prefix.drop_last() =~= rows_view(rows@.subrange(0, i as int)));
            assert(prefix.last() == row_view(rows@[i as int]));
            let c = match CurrencyUnit::from_code(row.currency.as_str()) {
                Some(c) => c,
                None => {
                    proof {
                        lemma_rows_unreadable_suffix(rows_view(rows@), i as int);
                    }
                    return None;
                },
            };
            if row.rate_num == 0 || row.rate_den == 0 {
                proof {
                    lemma_rows_unreadable_suffix(rows_view(rows@), i as int);
                }
                return None;
            }
            let q = match Quantity::ratio(row.rate_num, row.rate_den) {
                Some(q) => q,
                None => {
                    return None;
                },
            };
            proof {
                crate::gcd::lemma_reduce(row.rate_num as nat, row.rate_den as nat);
                Quantity::lemma_bounds(q);
                assert(q@.0 > 0) by (nonlinear_arith)
                    requires
                        q@.0 * (row.rate_den as nat) == (row.rate_num as nat) * q@.1,
                        row.rate_num > 0,
                        q@.1 > 0,
                        row.rate_den > 0,
                ;
            }
            table.set_rate(c, q);
            if row.last_update > latest {
                latest = row.last_update;
            }
            i = i + 1;
        }
        assert(rows@.subrange(0, i as int) =~= rows@);
        if rows.len() == 0 {
            let r = ConversionCache::new();
            assert(r@.rates =~= empty_rates());
            return Some(r);
        }
        proof {
            assert(rows_view(rows@).len() > 0);
            assert(rates_wf(table@));
        }
        let r = ConversionCache { table, expire_after: EXPIRE_AFTER, last_time: Some(latest) };
        Some(r)
    }

    /// Looks up the rate of `c` at time `now`: the cached rate where the
    /// table is fresh and has one, else the need for a refresh.
    pub fn lookup_at(&self, c: CurrencyUnit, now: i64) -> (r: RateLookup)
        requires
            self.wf(),
        ensures
            match r {
                RateLookup::Found(q) => cached_rate(self@, c, now as int) == Some(q@) && q.wf(),
                RateLookup::Refresh => cached_rate(self@, c, now as int) is None,
            },
    {
        if !self.is_fresh_at(now) {
            return RateLookup::Refresh;
        }
        match self.table.rate(c) {
            Some(q) => RateLookup::Found(q),
            None => RateLookup::Refresh,
        }
    }

    /// Looks up the rate of `c` now; see `lookup_at`.
    pub fn lookup(&self, c: CurrencyUnit) -> (r: RateLookup)
        requires
            self.wf(),
        ensures
            r matches RateLookup::Found(q) ==> q.wf() && self@.rates[c.spec_index() as int] == Some(q@)
                && self@.last_refreshed is Some,
            self@.last_refreshed is None || self@.rates[c.spec_index() as int] is None ==> r matches RateLookup::Refresh,
    {
        let now = now_seconds();
        self.lookup_at(c, now)
    }

    /// Completes a refresh of `c` now; see `finish_refresh_at`. A response
    /// without a timestamp is stamped with the clock.
    pub fn finish_refresh(&mut self, c: CurrencyUnit, fetched: Result<String, APIError>) -> (r: (
        Result<Quantity, APIError>,
        bool,
    ))
        requires
            old(self).wf(),
        ensures
            final(self).wf(),
            exists|now: i64| refresh_result(old(self)@, final(self)@, c, fetched, now as int, r.0, r.1),
    {
        let now = now_seconds();
        self.finish_refresh_at(c, fetched, now)
    }

    /// Replaces the table with the rates in `entries`, stamped with
    /// `timestamp`, or with `now` where the response had no usable
    /// timestamp. Nothing changes when `entries` is absent or holds a
    /// malformed entry.
    pub fn update_from_entries(&mut self, timestamp: Option<i64>, entries: Option<&Vec<RateEntry>>, now: i64) -> (r:
        Result<(), APIError>)
        requires
            old(self).wf(),
        ensures
            final(self).wf(),
            match refresh_outcome(
                old(self)@,
                Some(
                    (
                        timestamp,
                        match entries {
                            Some(es) => Some(entries_view(es@)),
                            None => None,
                        },
                    ),
                ),
                now as int,
            ) {
                Ok(t) => r is Ok && final(self)@ == t,
                Err(k) => r is Err && r->Err_0.kind == k && *final(self) == *old(self),
            },
    {
        let es = match entries {
            None => {
                return Err(APIError::new(ApiErrorKind::RatesNotFound, "Rates not found"));
            },
            Some(es) => es,
        };
        let table = match rates_from_entries_exec(es) {
            Err(e) => {
                return Err(e);
            },
            Ok(t) => t,
        };
        let stamp = match timestamp {
            Some(t) => t,
            None => now,
        };
        self.table = table;
        self.last_time = Some(stamp);
        Ok(())
    }

    /// Reads a pricing response (a JSON object with an integer `timestamp`
    /// and a `rates` object from currency code to number) and replaces the
    /// table with its rates; see `refresh_outcome`. Nothing changes on an
    /// error.
    pub fn update_from_response(&mut self, body: &str, now: i64) -> (r: Result<(), APIError>)
        requires
            old(self).wf(),
        ensures
            final(self).wf(),
            match refresh_outcome(old(self)@, response_fields(body@), now as int) {
                Ok(t) => r is Ok && final(self)@ == t,
                Err(k) => r is Err && r->Err_0.kind == k && *final(self) == *old(self),
            },
    {
        match read_response(body) {
            None => Err(APIError::new(ApiErrorKind::InvalidResponse, "Invalid response body")),
            Some((timestamp, entries)) => match entries {
                None => self.update_from_entries(timestamp, None, now),
                Some(es) => self.update_from_entries(timestamp, Some(&es), now),
            },
        }
    }

    /// Completes a lookup of `c` that asked for a refresh, at time `now`,
    /// with the body that the pricing source returned or the error that
    /// fetching it gave; see `refresh_result`. The second part of the
    /// result says whether the table was replaced.
    pub fn finish_refresh_at(&mut self, c: CurrencyUnit, fetched: Result<String, APIError>, now: i64) -> (r: (
        Result<Quantity, APIError>,
        bool,
    ))
        requires
            old(self).wf(),
        ensures
            final(self).wf(),
            refresh_result(old(self)@, final(self)@, c, fetched, now as int, r.0, r.1),
    {
        let body = match fetched {
            Err(e) => {
                return (Err(e), false);
            },
            Ok(body) => body,
        };
        match self.update_from_response(body.as_str(), now) {
            Err(e) => (Err(e), false),
            Ok(()) => match self.table.rate(c) {
                Some(q) => (Ok(q), true),
                None => (Err(APIError::new(ApiErrorKind::RateNotFound, "Rate not found")), true),
            },
        }
    }
}

/// One row of the durable snapshot: a currency code, its rate as numerator
/// and denominator, and when the table was refreshed.
#[derive(Clone, Debug)]
pub struct SnapshotRow {
    pub currency: String,
    pub rate_num: u64,
    pub rate_den: u64,
    pub last_update: i64,
}

pub open spec fn row_view(r: SnapshotRow) -> (Seq<char>, nat, nat, int) {
    (r.currency@, r.rate_num as nat, r.rate_den as nat, r.last_update as int)
}

pub open spec fn rows_view(rows: Seq<SnapshotRow>) -> Seq<(Seq<char>, nat, nat, int)> {
    rows.map_values(|r: SnapshotRow| row_view(r))
}

pub open spec fn stamp_or_zero(s: CacheState) -> int {
    match s.last_refreshed {
        Some(t) => t,
        None => 0,
    }
}

/// The snapshot rows of the first `k` currencies: one for each that has a
/// rate, in declaration order.
pub open spec fn snapshot_rows(s: CacheState, k: nat) -> Seq<(Seq<char>, nat, nat, int)>
    decreases k,
{
    if k == 0 {
        Seq::empty()
    } else {
        let prev = snapshot_rows(s, (k - 1) as nat);
        let c = CurrencyUnit::spec_all()[k - 1];
        match s.rates[k - 1] {
            Some(r) => prev.push((c.spec_code(), r.0, r.1, stamp_or_zero(s))),
            None => prev,
        }
    }
}

/// The currency and rate that a snapshot row holds, where it is readable.
pub open spec fn row_rate(row: (Seq<char>, nat, nat, int)) -> Option<(CurrencyUnit, (nat, nat))> {
    match currency_named(row.0) {
        Some(c) => if row.1 > 0 && row.2 > 0 && fraction(row.1, row.2) is Some {
            Some((c, fraction(row.1, row.2)->Some_0))
        } else {
            None
        },
        None => None,
    }
}

/// The rate table that snapshot rows hold, or `None` where a row is
/// unreadable.
pub open spec fn rates_from_rows(rows: Seq<(Seq<char>, nat, nat, int)>) -> Option<Seq<Option<(nat, nat)>>>
    decreases rows.len(),
{
    if rows.len() == 0 {
        Some(empty_rates())
    } else {
        match (rates_from_rows(rows.drop_last()), row_rate(rows.last())) {
            (Some(t), Some(cr)) => Some(t.update(cr.0.spec_index() as int, Some(cr.1))),
            _ => None,
        }
    }
}

/// The latest refresh time among snapshot rows.
pub open spec fn latest_update(rows: Seq<(Seq<char>, nat, nat, int)>) -> int
    decreases rows.len(),
{
    if rows.len() == 0 {
        i64::MIN as int
    } else {
        let t = latest_update(rows.drop_last());
        if rows.last().3 > t {
            rows.last().3
        } else {
            t
        }
    }
}

/// The cache state that snapshot rows restore: stale and empty without
/// rows, else their rates stamped with the latest refresh time.
pub open spec fn state_from_rows(rows: Seq<(Seq<char>, nat, nat, int)>) -> Option<CacheState> {
    match rates_from_rows(rows) {
        Some(t) => Some(
            CacheState {
                rates: t,
                last_refreshed: if rows.len() == 0 {
                    None
                } else {
                    Some(latest_update(rows))
                },
                expire_after: EXPIRE_AFTER as int,
            },
        ),
        None => None,
    }
}

pub open spec fn rates_below(t: Seq<Option<(nat, nat)>>, k: nat) -> Seq<Option<(nat, nat)>> {
    Seq::new(CURRENCY_COUNT as nat, |i: int| if i < k { t[i] } else { None })
}

proof fn lemma_snapshot_rows_prefix(s: CacheState, k: nat)
    requires
        rates_wf(s.rates),
        k <= CURRENCY_COUNT,
        stamp_or_zero(s) >= i64::MIN,
    ensures
        rates_from_rows(snapshot_rows(s, k)) == Some(rates_below(s.rates, k)),
        snapshot_rows(s, k).len() > 0 ==> latest_update(snapshot_rows(s, k)) == stamp_or_zero(s),
        snapshot_rows(s, k).len() == 0 <==> forall|i: int| 0 <= i < k ==> (#[trigger] s.rates[i]) is None,
        forall|i: int| 0 <= i < snapshot_rows(s, k).len() ==> (#[trigger] snapshot_rows(s, k)[i]).3 == stamp_or_zero(s),
    decreases k,
{
    if k == 0 {
        assert(rates_below(s.rates, 0) =~= empty_rates());
    } else {
        let j = (k - 1) as nat;
        lemma_snapshot_rows_prefix(s, j);
        let prev = snapshot_rows(s, j);
        let c = CurrencyUnit::spec_all()[j as int];
        assert(c.spec_index() == j) by {
            assert(j < 6);
        }
        match s.rates[j as int] {
            Some(r) => {
                let rows = snapshot_rows(s, k);
                assert(rows == prev.push((c.spec_code(), r.0, r.1, stamp_or_zero(s))));
                assert(rows.drop_last() =~= prev);
                assert(rows.last() == (c.spec_code(), r.0, r.1, stamp_or_zero(s)));
                if prev.len() == 0 {
                    assert(latest_update(prev) == i64::MIN as int);
                }
                assert(latest_update(rows) == stamp_or_zero(s));
                lemma_currency_named_code(c);
                assert(valid_rate(s.rates[j as int]->Some_0));
                lemma_fraction_of_same_value(r.0, r.1, r);
                assert(rates_below(s.rates, j).update(j as int, Some(r)) =~= rates_below(s.rates, k));
                assert forall|i: int| 0 <= i < rows.len() implies (#[trigger] rows[i]).3 == stamp_or_zero(s) by {
                    if i < prev.len() {
                        assert(rows[i] == prev[i]);
                    }
                }
            },
            None => {
                assert(rates_below(s.rates, j) =~= rates_below(s.rates, k));
            },
        }
    }
}

/// Saving the cache as snapshot rows and restoring from them gives back the
/// same currency-to-rate table and, where it holds any rate, the same
/// refresh time.
pub proof fn lemma_snapshot_round_trip(s: CacheState)
    requires
        rates_wf(s.rates),
        s.last_refreshed is None ==> rates_empty(s.rates),
        s.last_refreshed matches Some(t) ==> t >= i64::MIN,
    ensures
        state_from_rows(snapshot_rows(s, CURRENCY_COUNT as nat)) is Some,
        state_from_rows(snapshot_rows(s, CURRENCY_COUNT as nat))->Some_0.rates == s.rates,
        !rates_empty(s.rates) ==> state_from_rows(snapshot_rows(s, CURRENCY_COUNT as nat))->Some_0.last_refreshed
            == s.last_refreshed,
{
    lemma_snapshot_rows_prefix(s, CURRENCY_COUNT as nat);
    assert(rates_below(s.rates, CURRENCY_COUNT as nat) =~= s.rates);
}

proof fn lemma_rows_unreadable_suffix(rows: Seq<(Seq<char>, nat, nat, int)>, i: int)
    requires
        0 <= i < rows.len(),
        row_rate(rows[i]) is None,
    ensures
        rates_from_rows(rows) is None,
    decreases rows.len(),
{
    if i < rows.len() - 1 {
        assert(rows.drop_last()[i] == rows[i]);
        lemma_rows_unreadable_suffix(rows.drop_last(), i);
    }
}

impl Default for ConversionCache {
    fn default() -> (r: ConversionCache)
        ensures
            r.wf(),
            r@.rates == empty_rates(),
            r@.last_refreshed is None,
            r@.expire_after == EXPIRE_AFTER,
    {
        ConversionCache::new()
    }
}

/// A rate that a fresh cache holds is returned by every lookup while the
/// cache stays fresh, without a refresh: two lookups of one currency within
/// the expiration window give the same rate.
pub proof fn lemma_fresh_rate_reused(s: CacheState, c: CurrencyUnit, t1: int, t2: int)
    requires
        cached_rate(s, c, t1) is Some,
        is_fresh(s, t2),
    ensures
        cached_rate(s, c, t2) == cached_rate(s, c, t1),
{
}

/// After a refresh that returned the rate of `c`, a lookup of `c` within
/// the expiration window of the new stamp returns that rate without another
/// refresh.
pub proof fn lemma_refresh_then_hit(
    s: CacheState,
    entries: Seq<EntryView>,
    stamp: int,
    c: CurrencyUnit,
    now: int,
)
    requires
        refreshed(s, entries, stamp).rates[c.spec_index() as int] is Some,
        now - stamp < s.expire_after,
    ensures
        cached_rate(refreshed(s, entries, stamp), c, now) == refreshed(s, entries, stamp).rates[c.spec_index() as int],
{
}

/// Once the expiration window has elapsed, a lookup asks for a refresh,
/// whatever the table holds; the refresh that follows, where the response
/// is accepted, stamps the table with the response's timestamp (or the
/// time of the refresh where it has none) and makes it fresh again.
pub proof fn lemma_expired_needs_refresh(
    s: CacheState,
    c: CurrencyUnit,
    now: int,
    new: CacheState,
    body: String,
    r: Result<Quantity, APIError>,
    replaced: bool,
)
    requires
        s.last_refreshed matches Some(t) && now - t >= s.expire_after,
        s.expire_after > 0,
        refresh_result(s, new, c, Ok(body), now, r, replaced),
        replaced,
    ensures
        cached_rate(s, c, now) is None,
        response_fields(body@) matches Some(f) && new.last_refreshed == Some(stamp_of(f.0, now)),
        response_fields(body@)->Some_0.0 is None ==> is_fresh(new, now),
{
}

/// After a refresh of `c` that returned a rate, every lookup of `c` while
/// the new table is fresh finds that same rate and asks for no further
/// refresh.
pub proof fn lemma_rate_after_refresh_reused(
    s: CacheState,
    new: CacheState,
    c: CurrencyUnit,
    fetched: Result<String, APIError>,
    now: int,
    r: Result<Quantity, APIError>,
    replaced: bool,
    later: int,
)
    requires
        refresh_result(s, new, c, fetched, now, r, replaced),
        r is Ok,
        is_fresh(new, later),
    ensures
        cached_rate(new, c, later) == Some(r->Ok_0@),
{
}

} // verus!
