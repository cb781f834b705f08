//! The weight log: timestamped readings in the order they are stored, their
//! insertion in chronological order, and the moving average over them.

use crate::decimal::{
    all_digits, decimal, is_digit, lemma_decimal_is_read_back, literal_tenths, parse_tenths,
    push_decimal,
};
use crate::records::{
    csv_records, entries_of_records, entry_from_record, header_matches, is_header, log_of_csv,
    log_of_records, read_records, ParseError,
};
use crate::sorting::{
    law_sorted_is_chronological, law_sorted_keeps_each_instant, sort_stably, stable_sorted,
    taken_at,
};
use crate::timestamp::{utc_now, Timestamp};
use vstd::prelude::*;
use vstd::string::*;

verus! {

/// A weight in tenths of a kilogram.
#[derive(Clone, Copy, Debug, PartialEq, Eq, Structural)]
pub struct Weight(pub u32);

impl Weight {
    /// The weight as it is shown: whole kilograms, a point, the tenths.
    pub open spec fn shown(self) -> Seq<char> {
        decimal(self.0 as nat / 10) + seq!['.'] + decimal(self.0 as nat % 10)
    }

    /// The weight that a literal of a log file denotes, where it is one and
    /// its tenths fit.
    pub open spec fn of_literal(text: Seq<char>) -> Option<Weight> {
        match literal_tenths(text) {
            Some(tenths) => if tenths <= u32::MAX {
                Some(Weight(tenths as u32))
            } else {
                None
            },
            None => None,
        }
    }

    /// Writes the weight in kilograms with one decimal: 760 tenths are "76.0".
    pub fn to_string(&self) -> (text: String)
        ensures
            text@ == self.shown(),
    {
        let mut text = String::new();
        push_decimal(&mut text, self.0 / 10);
        proof {
            reveal_strlit(".");
        }
        text.append(".");
        push_decimal(&mut text, self.0 % 10);
        assert(text@ =~= self.shown());
        text
    }

    /// Reads a weight literal, kilograms with at most one decimal.
    pub fn parse(text: &str) -> (weight: Option<Weight>)
        ensures
            weight == Weight::of_literal(text@),
    {
        match parse_tenths(text) {
            Some(tenths) => Some(Weight(tenths)),
            None => None,
        }
    }
}

/// One reading: a weight and the instant at which it was taken.
#[derive(Clone, Copy, Debug, PartialEq, Eq, Structural)]
pub struct WeightLogEntry {
    pub weight: Weight,
    pub timestamp: Timestamp,
}

impl WeightLogEntry {
    /// A reading of `weight` taken now, by the system clock. Panics where
    /// that clock stands before 1970.
    pub fn of(weight: Weight) -> (entry: WeightLogEntry)
        ensures
            entry.weight == weight,
    {
        WeightLogEntry { weight, timestamp: utc_now() }
    }

    /// The same reading, taken at `timestamp` instead.
    pub fn at(self, timestamp: Timestamp) -> (entry: WeightLogEntry)
        ensures
            entry.weight == self.weight,
            entry.timestamp == timestamp,
    {
        WeightLogEntry { weight: self.weight, timestamp }
    }

    pub fn weight(&self) -> (weight: Weight)
        ensures
            weight == self.weight,
    {
        self.weight
    }

    pub fn timestamp(&self) -> (timestamp: Timestamp)
        ensures
            timestamp == self.timestamp,
    {
        self.timestamp
    }
}

/// Whether the entries stand in chronological order: none is followed by one
/// that was taken before it.
pub open spec fn chronological(entries: Seq<WeightLogEntry>) -> bool {
    forall|i: int, j: int|
        0 <= i < j < entries.len() ==> (#[trigger] entries[i]).timestamp.not_after(
            (#[trigger] entries[j]).timestamp,
        )
}

/// Chronological readings without the last of them are chronological.
pub proof fn lemma_chronological_without_last(entries: Seq<WeightLogEntry>)
    requires
        chronological(entries),
        entries.len() > 0,
    ensures
        chronological(entries.drop_last()),
{
    let rest = entries.drop_last();
    assert forall|i: int, j: int| 0 <= i < j < rest.len() implies (#[trigger] rest[i])
        .timestamp.not_after((#[trigger] rest[j]).timestamp) by {
        assert(entries[i].timestamp.not_after(entries[j].timestamp));
    }
}

/// Chronological readings stay chronological with one more behind them that
/// was not taken before the last of them.
pub proof fn lemma_chronological_with_later(entries: Seq<WeightLogEntry>, entry: WeightLogEntry)
    requires
        chronological(entries),
        entries.len() == 0 || entries.last().timestamp.not_after(entry.timestamp),
    ensures
        chronological(entries.push(entry)),
{
    let out = entries.push(entry);
    assert forall|i: int, j: int| 0 <= i < j < out.len() implies (#[trigger] out[i])
        .timestamp.not_after((#[trigger] out[j]).timestamp) by {
        if j == entries.len() {
            assert(entries[i].timestamp.not_after(entries.last().timestamp));
        } else {
            assert(entries[i].timestamp.not_after(entries[j].timestamp));
        }
    }
}

/// Whether inserting `entry` behind `entries` calls for a re-sort: it does
/// where the last of them was taken after `entry`.
pub open spec fn resorts(entries: Seq<WeightLogEntry>, entry: WeightLogEntry) -> bool {
    entries.len() > 0 && entry.timestamp.precedes(entries.last().timestamp)
}

/// What a log holds after `entry` is inserted: the entry is appended, and
/// where it came out of order the whole is stably sorted by instant.
pub open spec fn log_after_insert(
    entries: Seq<WeightLogEntry>,
    entry: WeightLogEntry,
) -> Seq<WeightLogEntry> {
    if resorts(entries, entry) {
        stable_sorted(entries.push(entry))
    } else {
        entries.push(entry)
    }
}

/// What a log holds after each of `more` is inserted in turn.
pub open spec fn log_after_inserts(
    entries: Seq<WeightLogEntry>,
    more: Seq<WeightLogEntry>,
) -> Seq<WeightLogEntry>
    decreases more.len(),
{
    if more.len() == 0 {
        entries
    } else {
        log_after_insert(log_after_inserts(entries, more.drop_last()), more.last())
    }
}

/// The sum of the weights of some entries, in tenths.
pub open spec fn weight_sum(entries: Seq<WeightLogEntry>) -> nat
    decreases entries.len(),
{
    if entries.len() == 0 {
        0
    } else {
        weight_sum(entries.drop_last()) + entries.last().weight.0 as nat
    }
}

/// The average of the `period` entries from `start` on: the mean of their
/// weights, the remainder dropped, at the instant of the last of them.
pub open spec fn window_average(
    entries: Seq<WeightLogEntry>,
    start: int,
    period: nat,
) -> WeightLogEntry
    recommends
        period > 0,
        0 <= start,
        start + period <= entries.len(),
{
    WeightLogEntry {
        weight: Weight((weight_sum(entries.subrange(start, start + period)) / period) as u32),
        timestamp: entries[start + period - 1].timestamp,
    }
}

/// The moving average over every window of `period` entries in a row, first
/// window first; empty where there are fewer entries than `period`.
pub open spec fn moving_average_of(entries: Seq<WeightLogEntry>, period: nat) -> Seq<
    WeightLogEntry,
>
    recommends
        period > 0,
{
    if entries.len() < period {
        Seq::empty()
    } else {
        Seq::new(
            (entries.len() - period + 1) as nat,
            |start: int| window_average(entries, start, period),
        )
    }
}

/// The direction in which the weight moves.
#[derive(Clone, Copy, Debug, PartialEq, Eq, Structural)]
pub enum Trend {
    Down,
    Flat,
    Up,
}

/// The trend that the last two of some averages show, if there are two.
pub open spec fn trend_of(averages: Seq<WeightLogEntry>) -> Option<Trend> {
    if averages.len() < 2 {
        None
    } else {
        let last = averages[averages.len() - 1].weight.0;
        let penultimate = averages[averages.len() - 2].weight.0;
        if last < penultimate {
            Some(Trend::Down)
        } else if last == penultimate {
            Some(Trend::Flat)
        } else {
            Some(Trend::Up)
        }
    }
}

/// Compares the last of the averages with the one before it. With fewer than
/// two averages there is no trend to tell.
pub fn trend(averages: &[WeightLogEntry]) -> (trend: Option<Trend>)
    ensures
        trend == trend_of(averages@),
{
    let n = averages.len();
    if n < 2 {
        return None;
    }
    let last = averages[n - 1].weight.0;
    let penultimate = averages[n - 2].weight.0;
    if last < penultimate {
        Some(Trend::Down)
    } else if last == penultimate {
        Some(Trend::Flat)
    } else {
        Some(Trend::Up)
    }
}

/// A log of readings, in the order in which they are stored.
#[derive(Debug)]
pub struct WeightLog(pub Vec<WeightLogEntry>);

impl View for WeightLog {
    type V = Seq<WeightLogEntry>;

    open spec fn view(&self) -> Seq<WeightLogEntry> {
        self.0@
    }
}

impl WeightLog {
    /// The empty log.
    pub fn new() -> (log: WeightLog)
        ensures
            log@ == Seq::<WeightLogEntry>::empty(),
    {
        WeightLog(Vec::new())
    }

    /// Reads a log from the text of a log file: comma-separated records, the
    /// first the header `weight,timestamp`, each of the others a weight in
    /// kilograms with at most one decimal and an RFC 3339 timestamp. The
    /// readings are kept in the order of the file. Any failure fails the
    /// whole.
    pub fn from_csv(input: &[u8]) -> (log: Result<WeightLog, ParseError>)
        ensures
            match log {
                Ok(log) => log_of_csv(csv_records(input@)) == Ok::<_, ParseError>(log@),
                Err(error) => log_of_csv(csv_records(input@)) == Err::<Seq<WeightLogEntry>, _>(
                    error,
                ),
            },
    {
        match read_records(input) {
            None => Err(ParseError::Csv),
            Some(records) => WeightLog::from_records(&records),
        }
    }

    /// Builds a log from the records of a log file, the header first.
    pub fn from_records(records: &Vec<Vec<String>>) -> (log: Result<WeightLog, ParseError>)
        ensures
            match log {
                Ok(log) => log_of_records(records.deep_view()) == Ok::<_, ParseError>(log@),
                Err(error) => log_of_records(records.deep_view()) == Err::<
                    Seq<WeightLogEntry>,
                    _,
                >(error),
            },
    {
        let n = records.len();
        if n == 0 || !header_matches(&records[0]) {
            return Err(ParseError::Header);
        }
        let ghost rows = records.deep_view().skip(1);
        let mut entries: Vec<WeightLogEntry> = Vec::new();
        let mut i: usize = 1;
        assert(rows.take(0) =~= Seq::empty());
        while i < n
            invariant
                1 <= i <= n,
                n == records@.len(),
                rows == records.deep_view().skip(1),
                is_header(records.deep_view()[0]),
                entries_of_records(rows.take(i - 1)) == Ok::<_, ParseError>(entries@),
            decreases n - i,
        {
            let entry = entry_from_record(&records[i]);
            proof {
                assert(rows.take(i as int).drop_last() =~= rows.take(i - 1));
                assert(rows.take(i as int).last() == records@[i as int].deep_view());
                if entry is Err {
                    assert(entries_of_records(rows.take(i as int)) is Err);
                    lemma_failure_stays(rows, i as int);
                }
            }
            match entry {
                Err(error) => {
                    return Err(error);
                },
                Ok(entry) => {
                    entries.push(entry);
                },
            }
            i = i + 1;
        }
        assert(rows.take(n - 1) =~= rows);
        Ok(WeightLog(entries))
    }

    /// How many readings the log holds.
    pub fn len(&self) -> (len: usize)
        ensures
            len == self@.len(),
    {
        self.0.len()
    }

    /// The readings in stored order.
    pub fn as_slice(&self) -> (entries: &[WeightLogEntry])
        ensures
            entries@ == self@,
    {
        self.0.as_slice()
    }

    /// Appends a reading. Where it was taken before the last reading of the
    /// log, the whole log is then sorted by instant, readings of one instant
    /// keeping their order; otherwise nothing else moves.
    pub fn insert(&mut self, entry: WeightLogEntry)
        ensures
            final(self)@ == log_after_insert(old(self)@, entry),
    {
        let n = self.0.len();
        let resort = n > 0 && entry.timestamp.is_before(&self.0[n - 1].timestamp);
        self.0.push(entry);
        if resort {
            sort_stably(&mut self.0);
        }
    }

    /// The moving average over every `period` readings in a row, in stored
    /// order. A log with fewer than `period` readings has none.
    pub fn moving_average(&self, period: usize) -> (averages: Vec<WeightLogEntry>)
        requires
            period > 0,
        ensures
            averages@ == moving_average_of(self@, period as nat),
            self@.len() < period ==> averages@.len() == 0,
            self@.len() >= period ==> averages@.len() == self@.len() - period + 1,
    {
        let mut averages: Vec<WeightLogEntry> = Vec::new();
        let n = self.0.len();
        if n < period {
            return averages;
        }
        let mut start: usize = 0;
        while start <= n - period
            invariant
                0 < period <= n,
                n == self@.len(),
                0 <= start <= n - period + 1,
                averages@.len() == start,
                forall|k: int|
                    0 <= k < start ==> averages@[k] == window_average(self@, k, period as nat),
            decreases n - period + 1 - start,
        {
            let mut sum: u128 = 0;
            let mut i: usize = 0;
            while i < period
                invariant
                    0 <= i <= period,
                    start + period <= n,
                    n == self@.len(),
                    sum == weight_sum(self@.subrange(start as int, start + i)),
                    sum <= i * 0xffff_ffff,
                decreases period - i,
            {
                proof {
                    let upto = self@.subrange(start as int, start + i + 1);
                    assert(upto.drop_last() =~= self@.subrange(start as int, start + i));
                    assert((i + 1) * 0xffff_ffff == i * 0xffff_ffff + 0xffff_ffff)
                        by (nonlinear_arith);
                    assert(i * 0xffff_ffff <= 0xffff_ffff_ffff_ffff * 0xffff_ffff)
                        by (nonlinear_arith)
                        requires
                            i <= 0xffff_ffff_ffff_ffff,
                    ;
                }
                sum = sum + self.0[start + i].weight.0 as u128;
                i = i + 1;
            }
            let mean = sum / (period as u128);
            proof {
                assert(mean <= 0xffff_ffff) by (nonlinear_arith)
                    requires
                        mean == sum / (period as u128),
                        sum <= period * 0xffff_ffff,
                        period > 0,
                ;
            }
            let average = WeightLogEntry {
                weight: Weight(mean as u32),
                timestamp: self.0[start + period - 1].timestamp,
            };
            assert(average == window_average(self@, start as int, period as nat));
            averages.push(average);
            start = start + 1;
        }
        assert(averages@ =~= moving_average_of(self@, period as nat));
        averages
    }
}

/// A weight is read back from the way it is shown.
pub proof fn law_shown_weight_is_read_back(weight: Weight)
    ensures
        Weight::of_literal(weight.shown()) == Some(weight),
{
    let whole = decimal(weight.0 as nat / 10);
    let tenth = decimal(weight.0 as nat % 10);
    let text = weight.shown();
    lemma_decimal_is_read_back(weight.0 as nat / 10);
    lemma_decimal_is_read_back(weight.0 as nat % 10);
    assert(tenth.len() == 1);
    assert(text[text.len() - 2] == '.');
    assert(!all_digits(text)) by {
        assert(!is_digit(text[text.len() - 2]));
    }
    assert(text.take(text.len() - 2) =~= whole);
    assert(text.last() == tenth[0]);
    assert(tenth.drop_last() =~= Seq::<char>::empty());
}

/// Once the records up to some point fail, so do all of them, and alike.
proof fn lemma_failure_stays(records: Seq<Seq<Seq<char>>>, upto: int)
    requires
        0 <= upto <= records.len(),
        entries_of_records(records.take(upto)) is Err,
    ensures
        entries_of_records(records) == entries_of_records(records.take(upto)),
    decreases records.len() - upto,
{
    if upto < records.len() {
        assert(records.take(upto + 1).drop_last() =~= records.take(upto));
        lemma_failure_stays(records, upto + 1);
    } else {
        assert(records.take(upto) =~= records);
    }
}

/// Inserting into a chronological log leaves it chronological.
pub proof fn law_insert_keeps_order(entries: Seq<WeightLogEntry>, entry: WeightLogEntry)
    requires
        chronological(entries),
    ensures
        chronological(log_after_insert(entries, entry)),
{
    if resorts(entries, entry) {
        law_sorted_is_chronological(entries.push(entry));
    } else {
        lemma_chronological_with_later(entries, entry);
    }
}

/// A log that was built by insertions alone, from the empty log, is
/// chronological and holds as many readings as were inserted.
pub proof fn law_inserted_log_is_chronological(inserted: Seq<WeightLogEntry>)
    ensures
        chronological(log_after_inserts(Seq::empty(), inserted)),
        log_after_inserts(Seq::empty(), inserted).len() == inserted.len(),
    decreases inserted.len(),
{
    if inserted.len() > 0 {
        law_inserted_log_is_chronological(inserted.drop_last());
        let before = log_after_inserts(Seq::empty(), inserted.drop_last());
        law_insert_keeps_order(before, inserted.last());
        law_sorted_is_chronological(before.push(inserted.last()));
    }
}

/// Readings that come in chronological order and are inserted one at a time
/// into the empty log never call for a re-sort, and the log then holds them
/// as they came.
pub proof fn law_in_order_inserts(inserted: Seq<WeightLogEntry>)
    requires
        chronological(inserted),
    ensures
        log_after_inserts(Seq::empty(), inserted) == inserted,
        forall|k: int|
            0 <= k < inserted.len() ==> !resorts(
                log_after_inserts(Seq::empty(), #[trigger] inserted.take(k)),
                inserted[k],
            ),
    decreases inserted.len(),
{
    if inserted.len() > 0 {
        let rest = inserted.drop_last();
        lemma_chronological_without_last(inserted);
        law_in_order_inserts(rest);
        if rest.len() > 0 {
            assert(inserted[rest.len() - 1].timestamp.not_after(
                inserted[inserted.len() - 1].timestamp,
            ));
            assert(rest.last() == inserted[rest.len() - 1]);
        }
        assert(!resorts(rest, inserted.last()));
        assert(rest.push(inserted.last()) =~= inserted);
        assert forall|k: int| 0 <= k < inserted.len() implies !resorts(
            log_after_inserts(Seq::empty(), #[trigger] inserted.take(k)),
            inserted[k],
        ) by {
            if k < rest.len() {
                assert(inserted.take(k) =~= rest.take(k));
            } else {
                assert(inserted.take(k) =~= rest);
            }
        }
    } else {
        assert(log_after_inserts(Seq::empty(), inserted) =~= inserted);
    }
}

/// An insertion, re-sorting or not, keeps the readings of every instant in
/// the order in which they were inserted: the new one comes last among those
/// of its instant.
pub proof fn law_insert_keeps_each_instant(
    entries: Seq<WeightLogEntry>,
    entry: WeightLogEntry,
    instant: Timestamp,
)
    ensures
        taken_at(log_after_insert(entries, entry), instant) == taken_at(
            entries.push(entry),
            instant,
        ),
{
    law_sorted_keeps_each_instant(entries.push(entry), instant);
}

} // verus!
