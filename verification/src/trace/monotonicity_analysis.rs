//! Where the timestamps of a trace go backwards.

use vstd::prelude::*;

use crate::decimal::{dec, dec_int, i64_to_string, usize_to_string};
use crate::schema::{field_views, Field, FieldView};
use crate::text::views;
use crate::batch::{Batch, Column};
use crate::trace::error::{TraceError, TraceErrorView};

verus! {

/// A line of the report: the number of the row, what is reported, the two timestamps and their
/// difference. What does not apply is empty.
pub type Record = Vec<String>;

/// The lines of a report as values.
pub open spec fn record_views(records: Seq<Record>) -> Seq<Seq<Seq<char>>> {
    records.map_values(|r: Record| views(r@))
}

/// A timestamp as text; nothing for none.
pub open spec fn shown(timestamp: Option<i64>) -> Seq<char> {
    match timestamp {
        Some(t) => dec_int(t as int),
        None => Seq::empty(),
    }
}

/// The line of a new batch: the last timestamp before it and its first.
pub open spec fn batch_line(row: nat, last: Option<i64>, timestamps: Seq<i64>) -> Seq<Seq<char>> {
    let first = if timestamps.len() > 0 {
        Some(timestamps[0])
    } else {
        None
    };
    seq![dec(row), "new_record_batch"@, shown(last), shown(first), ""@]
}

/// The line of a timestamp that is less than the one before it.
pub open spec fn break_line(row: nat, last: i64, current: i64) -> Seq<Seq<char>> {
    seq![
        dec(row),
        "break_in_monotonicity"@,
        dec_int(last as int),
        dec_int(current as int),
        dec_int(current - last),
    ]
}

/// The last timestamp once some were seen.
pub open spec fn last_of(last: Option<i64>, timestamps: Seq<i64>) -> Option<i64> {
    if timestamps.len() == 0 {
        last
    } else {
        Some(timestamps.last())
    }
}

/// The lines of all timestamps that are less than the one before them.
pub open spec fn break_lines(row: nat, last: Option<i64>, timestamps: Seq<i64>) -> Seq<
    Seq<Seq<char>>,
>
    decreases timestamps.len(),
{
    if timestamps.len() == 0 {
        Seq::empty()
    } else {
        let earlier = timestamps.drop_last();
        let lines = break_lines(row, last, earlier);
        match last_of(last, earlier) {
            Some(t) if timestamps.last() < t => lines.push(
                break_line(row + earlier.len(), t, timestamps.last()),
            ),
            _ => lines,
        }
    }
}

/// Whether the difference of each timestamp that is less than the one before it fits.
pub open spec fn breaks_fit(last: Option<i64>, timestamps: Seq<i64>) -> bool {
    forall|i: int|
        0 <= i < timestamps.len() ==> match last_of(last, #[trigger] timestamps.take(i)) {
            Some(t) => timestamps[i] - t >= i64::MIN,
            None => true,
        }
}

/// The timestamps of a batch.
pub open spec fn timestamps_of(batch: &Batch) -> Result<Seq<i64>, TraceErrorView> {
    match batch.find("timestamp"@) {
        None => Err(TraceErrorView::NoTimestamps),
        Some(Column::Int64(v)) => Ok(v@),
        Some(_) => Err(TraceErrorView::TimestampsNotInt64),
    }
}

/// The timestamps of a batch.
pub fn timestamps(batch: &Batch) -> (r: Result<&Vec<i64>, TraceError>)
    requires
        batch.wf(),
    ensures
        match r {
            Ok(v) => timestamps_of(batch) == Ok::<Seq<i64>, TraceErrorView>(v@) && v@.len()
                == batch.num_rows,
            Err(e) => timestamps_of(batch) == Err::<Seq<i64>, TraceErrorView>(e@),
        },
{
    match batch.column_by_name("timestamp") {
        None => Err(TraceError::NoTimestamps),
        Some(Column::Int64(v)) => Ok(v),
        Some(_) => Err(TraceError::TimestampsNotInt64),
    }
}

/// The report's first line.
pub open spec fn header_line() -> Seq<Seq<char>> {
    seq![
        "row_number"@,
        "event_type"@,
        "first_timestamp"@,
        "second_timestamp"@,
        "difference"@,
    ]
}

/// A line of five texts.
fn record(a: String, b: &str, c: String, d: String, e: String) -> (r: Record)
    ensures
        views(r@) == seq![a@, b@, c@, d@, e@],
{
    let mut r: Vec<String> = Vec::new();
    r.push(a);
    r.push(b.to_string());
    r.push(c);
    r.push(d);
    r.push(e);
    assert(views(r@) =~= seq![a@, b@, c@, d@, e@]);
    r
}

/// A timestamp as text.
fn show(timestamp: Option<i64>) -> (r: String)
    ensures
        r@ == shown(timestamp),
{
    match timestamp {
        Some(t) => i64_to_string(t),
        None => {
            let r = String::new();
            assert(r@ =~= Seq::<char>::empty());
            r
        },
    }
}

/// Reports each batch, and each timestamp that is less than the one before it.
pub struct MonotonicityAnalysis {
    pub total_row_count: usize,
    pub last_timestamp: Option<i64>,
}

impl MonotonicityAnalysis {
    /// An analysis that has seen nothing, and the first line of its report.
    pub fn new() -> (r: (MonotonicityAnalysis, Record))
        ensures
            r.0.total_row_count == 0,
            r.0.last_timestamp is None,
            views(r.1@) == header_line(),
    {
        let header = record(
            "row_number".to_string(),
            "event_type",
            "first_timestamp".to_string(),
            "second_timestamp".to_string(),
            "difference".to_string(),
        );
        (MonotonicityAnalysis { total_row_count: 0, last_timestamp: None }, header)
    }

    /// Whether the rows of a batch can be counted and their differences fit.
    pub fn accepts(&self, batch: &Batch) -> (r: bool)
        requires
            batch.wf(),
        ensures
            r == (timestamps_of(batch) is Ok ==> self.total_row_count + batch.num_rows <= usize::MAX
                && breaks_fit(self.last_timestamp, timestamps_of(batch)->Ok_0)),
    {
        let ts = match timestamps(batch) {
            Ok(v) => v,
            Err(_) => {
                return true;
            },
        };
        if batch.num_rows > usize::MAX - self.total_row_count {
            return false;
        }
        let mut last: Option<i64> = self.last_timestamp;
        let mut i: usize = 0;
        assert(ts@.take(0) =~= Seq::<i64>::empty());
        while i < ts.len()
            invariant
                i <= ts@.len(),
                timestamps_of(batch) == Ok::<Seq<i64>, TraceErrorView>(ts@),
                last == last_of(self.last_timestamp, ts@.take(i as int)),
                forall|k: int|
                    0 <= k < i ==> match last_of(self.last_timestamp, #[trigger] ts@.take(k)) {
                        Some(t) => ts@[k] - t >= i64::MIN,
                        None => true,
                    },
            decreases ts.len() - i,
        {
            let current: i64 = ts[i];
            if let Some(t) = last {
                if t > 0 && current < i64::MIN + t {
                    return false;
                }
            }
            assert(ts@.take(i as int + 1).last() == current);
            last = Some(current);
            i = i + 1;
        }
        true
    }

    /// Takes in a batch, and gives the lines that it adds to the report.
    pub fn process_record_batch(&mut self, batch: &Batch) -> (r: Result<
        Vec<Record>,
        TraceError,
    >)
        requires
            batch.wf(),
            timestamps_of(batch) is Ok ==> old(self).total_row_count + batch.num_rows <= usize::MAX
                && breaks_fit(old(self).last_timestamp, timestamps_of(batch)->Ok_0),
        ensures
            match timestamps_of(batch) {
                Err(e) => r is Err && r->Err_0@ == e && *final(self) == *old(self),
                Ok(ts) => {
                    let row = old(self).total_row_count as nat;
                    let last = old(self).last_timestamp;
                    &&& r is Ok
                    &&& record_views(r->Ok_0@) == seq![batch_line(row, last, ts)] + break_lines(
                        row,
                        last,
                        ts,
                    )
                    &&& final(self).total_row_count == row + ts.len()
                    &&& final(self).last_timestamp == last_of(last, ts)
                },
            },
    {
        let ts = match timestamps(batch) {
            Ok(v) => v,
            Err(e) => {
                return Err(e);
            },
        };
        let ghost row0 = self.total_row_count as nat;
        let ghost last0 = self.last_timestamp;
        let first: Option<i64> = if ts.len() > 0 {
            Some(ts[0])
        } else {
            None
        };
        let mut records: Vec<Record> = Vec::new();
        let opening = record(
            usize_to_string(self.total_row_count),
            "new_record_batch",
            show(self.last_timestamp),
            show(first),
            "".to_string(),
        );
        records.push(opening);
        let ghost start = seq![batch_line(row0, last0, ts@)];
        let mut i: usize = 0;
        assert(ts@.take(0) =~= Seq::<i64>::empty());
        assert(record_views(records@) =~= start + break_lines(row0, last0, ts@.take(0)));
        while i < ts.len()
            invariant
                i <= ts@.len(),
                row0 + ts@.len() <= usize::MAX,
                self.total_row_count == row0 + i,
                self.last_timestamp == last_of(last0, ts@.take(i as int)),
                breaks_fit(last0, ts@),
                record_views(records@) == start + break_lines(row0, last0, ts@.take(i as int)),
            decreases ts.len() - i,
        {
            let current: i64 = ts[i];
            let ghost earlier = ts@.take(i as int);
            let ghost so_far = records@;
            proof {
                let all = ts@.take(i as int + 1);
                assert(all.drop_last() =~= earlier);
                assert(all.last() == current);
            }
            if let Some(last_ts) = self.last_timestamp {
                if current < last_ts {
                    let difference: i64 = current - last_ts;
                    let line = record(
                        usize_to_string(self.total_row_count),
                        "break_in_monotonicity",
                        i64_to_string(last_ts),
                        i64_to_string(current),
                        i64_to_string(difference),
                    );
                    records.push(line);
                    assert(record_views(records@) =~= record_views(so_far).push(views(line@)));
                    assert(record_views(records@) =~= start + break_lines(
                        row0,
                        last0,
                        ts@.take(i as int + 1),
                    ));
                }
            }
            self.last_timestamp = Some(current);
            self.total_row_count = self.total_row_count + 1;
            i = i + 1;
        }
        assert(ts@.take(i as int) =~= ts@);
        Ok(records)
    }

    /// The columns that the analysis adds: none.
    pub fn new_columns_schema(&self) -> (r: Vec<Field>)
        ensures
            field_views(r@) == Seq::<FieldView>::empty(),
    {
        let fields: Vec<Field> = Vec::new();
        assert(field_views(fields@) =~= Seq::<FieldView>::empty());
        fields
    }
}

/// How a trace is cut into batches does not matter to the breaks that are reported.
pub proof fn law_batches_do_not_matter(row: nat, last: Option<i64>, a: Seq<i64>, b: Seq<i64>)
    ensures
        break_lines(row, last, a + b) == break_lines(row, last, a) + break_lines(
            row + a.len(),
            last_of(last, a),
            b,
        ),
        last_of(last, a + b) == last_of(last_of(last, a), b),
    decreases b.len(),
{
    if b.len() == 0 {
        assert(a + b =~= a);
        assert(break_lines(row, last, a) + Seq::<Seq<Seq<char>>>::empty() =~= break_lines(
            row,
            last,
            a,
        ));
    } else {
        law_batches_do_not_matter(row, last, a, b.drop_last());
        assert((a + b).drop_last() =~= a + b.drop_last());
        assert((a + b).last() == b.last());
        let second = break_lines(row + a.len(), last_of(last, a), b.drop_last());
        assert forall|x: Seq<Seq<char>>| #[trigger]
            (break_lines(row, last, a) + second).push(x) == break_lines(row, last, a)
            + second.push(x) by {
            assert((break_lines(row, last, a) + second).push(x) =~= break_lines(row, last, a)
                + second.push(x));
        }
    }
}

/// Nothing is reported of timestamps exactly where none is less than the one before it.
pub proof fn law_no_breaks_in_order(row: nat, last: Option<i64>, timestamps: Seq<i64>)
    ensures
        break_lines(row, last, timestamps).len() == 0 <==> (forall|i: int|
            0 <= i < timestamps.len() ==> match last_of(last, #[trigger] timestamps.take(i)) {
                Some(t) => t <= timestamps[i],
                None => true,
            }),
    decreases timestamps.len(),
{
    if timestamps.len() > 0 {
        let earlier = timestamps.drop_last();
        let n = earlier.len() as int;
        law_no_breaks_in_order(row, last, earlier);
        assert(timestamps.take(n) =~= earlier);
        assert forall|i: int| 0 <= i < n implies #[trigger] timestamps.take(i) == earlier.take(i) by {
            assert(timestamps.take(i) =~= earlier.take(i));
        }
        if forall|i: int|
            0 <= i < timestamps.len() ==> match last_of(last, #[trigger] timestamps.take(i)) {
                Some(t) => t <= timestamps[i],
                None => true,
            } {
            assert forall|i: int| 0 <= i < n implies match last_of(
                last,
                #[trigger] earlier.take(i),
            ) {
                Some(t) => t <= earlier[i],
                None => true,
            } by {
                assert(timestamps.take(i) == earlier.take(i));
            }
        }
    }
}

}
