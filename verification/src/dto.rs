//! The shapes in which a query and its answer cross the wire.

use crate::ele::{DataFrame, Ele};
use vstd::prelude::*;

verus! {

/// The options of a query.
#[derive(Debug, PartialEq, Eq)]
pub struct QueryOptionsDto {
    /// The most rows to hand back.
    pub limit: Option<usize>,
}

/// A query as a client sends it.
#[derive(Debug, PartialEq, Eq)]
pub struct QueryRequestDto {
    /// The SQL text.
    pub expr: String,
    pub opts: Option<QueryOptionsDto>,
}

impl QueryRequestDto {
    /// A request without options.
    pub fn new(expr: String) -> (r: Self)
        ensures
            r.expr == expr,
            r.opts is None,
    {
        QueryRequestDto { expr, opts: None }
    }

    /// A request with options that hold the given limit.
    pub fn with_options(expr: String, limit: Option<usize>) -> (r: Self)
        ensures
            r.expr == expr,
            r.opts == Some(QueryOptionsDto { limit }),
    {
        QueryRequestDto { expr, opts: Some(QueryOptionsDto { limit }) }
    }
}

/// A series of rows over time.
#[derive(Debug, PartialEq)]
pub struct TimeSeries {
    pub names: Vec<String>,
    pub timestamp: Vec<Ele>,
    pub cols: Vec<Vec<Ele>>,
}

impl Clone for TimeSeries {
    fn clone(&self) -> (r: Self)
        ensures
            r.names@ == self.names@,
            r.timestamp@ == self.timestamp@,
            r.cols@.len() == self.cols@.len(),
            forall|i: int| 0 <= i < r.cols@.len() ==> (#[trigger] r.cols@[i])@ == self.cols@[i]@,
    {
        TimeSeries { names: self.names.clone(), timestamp: self.timestamp.clone(), cols: self.cols.clone() }
    }
}

impl TimeSeries {
    /// The number of timestamps.
    pub fn len(&self) -> (n: usize)
        ensures
            n == self.timestamp@.len(),
    {
        self.timestamp.len()
    }

    /// Whether the series has no timestamp.
    pub fn is_empty(&self) -> (r: bool)
        ensures
            r == (self.timestamp@.len() == 0),
    {
        self.len() == 0
    }

    /// The number of complete rows: the length of the shortest of the
    /// timestamps and the columns.
    pub open spec fn complete(&self) -> nat
        recommends
            self.timestamp@.len() <= usize::MAX,
    {
        shortest(self.cols@, self.cols@.len() as int, self.timestamp@.len())
    }

    /// The number of complete rows.
    pub fn rows(&self) -> (n: usize)
        ensures
            n == self.complete(),
            n <= self.timestamp@.len(),
            forall|c: int| 0 <= c < self.cols@.len() ==> n <= (#[trigger] self.cols@[c])@.len(),
    {
        let mut n: usize = self.timestamp.len();
        let mut c: usize = 0;
        while c < self.cols.len()
            invariant
                c <= self.cols@.len(),
                n == shortest(self.cols@, c as int, self.timestamp@.len()),
                n <= self.timestamp@.len(),
                forall|k: int| 0 <= k < c ==> n <= (#[trigger] self.cols@[k])@.len(),
            decreases self.cols@.len() - c,
        {
            if self.cols[c].len() < n {
                n = self.cols[c].len();
            }
            c += 1;
        }
        n
    }

    /// The first rows of the series, at most `limit` of them where a limit
    /// is given: each row is a timestamp with the cells of all columns at
    /// its position. The rows end with the shortest of the timestamps and
    /// the columns.
    pub fn take(&self, limit: Option<usize>) -> (r: Vec<(Ele, Vec<Ele>)>)
        ensures
            r@.len() == match limit {
                Some(l) => if l < self.complete() {
                    l as nat
                } else {
                    self.complete()
                },
                None => self.complete(),
            },
            forall|i: int|
                0 <= i < r@.len() ==> (#[trigger] r@[i]).0 == self.timestamp@[i] && r@[i].1@.len()
                    == self.cols@.len(),
            forall|i: int, c: int|
                0 <= i < r@.len() && 0 <= c < self.cols@.len() ==> (#[trigger] r@[i].1@[c]) == (
                #[trigger] self.cols@[c])@[i],
    {
        let complete: usize = self.rows();
        let n: usize = match limit {
            Some(l) => if l < complete {
                l
            } else {
                complete
            },
            None => complete,
        };
        let mut out: Vec<(Ele, Vec<Ele>)> = Vec::new();
        let mut i: usize = 0;
        while i < n
            invariant
                i <= n,
                n <= self.timestamp@.len(),
                forall|c: int| 0 <= c < self.cols@.len() ==> n <= (#[trigger] self.cols@[c])@.len(),
                out@.len() == i,
                forall|j: int|
                    0 <= j < i ==> (#[trigger] out@[j]).0 == self.timestamp@[j] && out@[j].1@.len()
                        == self.cols@.len(),
                forall|j: int, c: int|
                    0 <= j < i && 0 <= c < self.cols@.len() ==> (#[trigger] out@[j].1@[c]) == (
                    #[trigger] self.cols@[c])@[j],
            decreases n - i,
        {
            let mut cells: Vec<Ele> = Vec::new();
            let mut c: usize = 0;
            while c < self.cols.len()
                invariant
                    i < n,
                    c <= self.cols@.len(),
                    forall|k: int| 0 <= k < self.cols@.len() ==> n <= (#[trigger] self.cols@[k])@.len(),
                    cells@.len() == c,
                    forall|k: int| 0 <= k < c ==> #[trigger] cells@[k] == self.cols@[k]@[i as int],
                decreases self.cols@.len() - c,
            {
                assert(n <= self.cols@[c as int]@.len());
                cells.push(self.cols[c][i].clone());
                c += 1;
            }
            out.push((self.timestamp[i].clone(), cells));
            i += 1;
        }
        out
    }
}

/// The least of `least` and the lengths of the first `upto` columns.
pub open spec fn shortest(cols: Seq<Vec<Ele>>, upto: int, least: nat) -> nat
    decreases upto,
{
    if upto <= 0 || upto > cols.len() {
        least
    } else {
        let before = shortest(cols, upto - 1, least);
        if cols[upto - 1]@.len() < before {
            cols[upto - 1]@.len()
        } else {
            before
        }
    }
}

/// What a query answers with.
#[derive(Debug, PartialEq)]
pub enum QueryDataDto {
    /// Nothing, as for a `SET`.
    Nil,
    /// A failure, with its code and message.
    Error { code: String, message: String },
    DataFrame(DataFrame),
    TimeSeries(TimeSeries),
}

/// The answer to a query as a client receives it.
#[derive(Debug, PartialEq)]
pub struct QueryResponseDto {
    pub payload: QueryDataDto,
    /// When the answer was made, in microseconds since the UNIX epoch.
    pub timestamp: u64,
    pub success: bool,
    /// The message of a failure.
    pub message: Option<String>,
}

/// The microseconds of a clock reading in nanoseconds, cut to 64 bits; zero
/// where the clock stands before the epoch.
pub open spec fn stamp_of(reading: Option<u128>) -> u64 {
    match reading {
        Some(n) => ((n / 1000) % 0x1_0000_0000_0000_0000) as u64,
        None => 0,
    }
}

impl QueryResponseDto {
    /// The stamp that goes with a clock reading.
    pub fn stamp(reading: Option<u128>) -> (r: u64)
        ensures
            r == stamp_of(reading),
    {
        match reading {
            Some(n) => ((n / 1000) % 0x1_0000_0000_0000_0000u128) as u64,
            None => 0,
        }
    }

    /// The current time in microseconds since the UNIX epoch.
    pub fn now() -> u64 {
        QueryResponseDto::stamp(crate::trace::clock_nanos())
    }

    /// The answer of a query that succeeded with `payload`.
    pub fn success(payload: QueryDataDto) -> (r: Self)
        ensures
            r.payload == payload,
            r.success,
            r.message is None,
    {
        QueryResponseDto { payload, timestamp: QueryResponseDto::now(), success: true, message: None }
    }

    /// The answer of a query that failed.
    pub fn error(code: String, message: String) -> (r: Self)
        ensures
            r.payload matches QueryDataDto::Error { code: c, message: m } && c == code && m@ == message@,
            !r.success,
            r.message == Some(message),
    {
        QueryResponseDto {
            payload: QueryDataDto::Error { code, message: message.clone() },
            timestamp: QueryResponseDto::now(),
            success: false,
            message: Some(message),
        }
    }

    /// The answer of a query that succeeded with nothing to hand back.
    pub fn nil() -> (r: Self)
        ensures
            r.payload is Nil,
            r.success,
            r.message is None,
    {
        QueryResponseDto {
            payload: QueryDataDto::Nil,
            timestamp: QueryResponseDto::now(),
            success: true,
            message: None,
        }
    }
}

} // verus!
