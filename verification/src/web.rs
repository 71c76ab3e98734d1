//! What the dashboard's client decides for itself: addresses and errors.

use crate::ele::{Column, DataFrame, Ele, EleView};
use crate::ieee::{truncated32, truncated64};
use crate::text::{parse_i64, parse_i64_text, same_text, signed_decimal, signed_decimal_text};
use crate::trace_table::TraceEvent;
use vstd::prelude::*;

verus! {

/// What can go wrong between the dashboard and the probe.
#[derive(Debug, PartialEq, Eq)]
pub enum AppError {
    Network(String),
    Json(String),
    Api(String),
}

impl Clone for AppError {
    fn clone(&self) -> (r: Self)
        ensures
            r == *self,
    {
        match self {
            AppError::Network(m) => AppError::Network(m.clone()),
            AppError::Json(m) => AppError::Json(m.clone()),
            AppError::Api(m) => AppError::Api(m.clone()),
        }
    }
}

impl AppError {
    /// The one-line message of the error: its kind, and what it says.
    pub open spec fn message_view(&self) -> Seq<char> {
        match *self {
            AppError::Network(m) => "Network error: "@ + m@,
            AppError::Json(m) => "JSON parsing error: "@ + m@,
            AppError::Api(m) => "API error: "@ + m@,
        }
    }

    /// The one-line message of the error.
    pub fn message(&self) -> (r: String)
        ensures
            r@ == self.message_view(),
    {
        match self {
            AppError::Network(m) => {
                let mut r = "Network error: ".to_owned();
                r.append(m.as_str());
                r
            },
            AppError::Json(m) => {
                let mut r = "JSON parsing error: ".to_owned();
                r.append(m.as_str());
                r
            },
            AppError::Api(m) => {
                let mut r = "API error: ".to_owned();
                r.append(m.as_str());
                r
            },
        }
    }
}

/// The client of the probe's HTTP interface.
#[derive(Clone, Copy, Debug, PartialEq, Eq, Structural)]
pub struct ApiClient;

/// A row of the table `trace_event`, with its texts as sequences of
/// characters.
pub struct RowView {
    pub record_type: Seq<char>,
    pub trace_id: i64,
    pub span_id: i64,
    pub parent_id: Option<i64>,
    pub name: Seq<char>,
    pub timestamp: i64,
    pub thread_id: i64,
    pub kind: Option<Seq<char>>,
    pub location: Option<Seq<char>>,
    pub attributes: Option<Seq<char>>,
    pub event_attributes: Option<Seq<char>>,
}

/// The text of an optional string.
pub open spec fn some_text(s: Option<String>) -> Option<Seq<char>> {
    match s {
        Some(t) => Some(t@),
        None => None,
    }
}

/// A row by its view.
pub open spec fn row_view(row: TraceEvent) -> RowView {
    RowView {
        record_type: row.record_type@,
        trace_id: row.trace_id,
        span_id: row.span_id,
        parent_id: row.parent_id,
        name: row.name@,
        timestamp: row.timestamp,
        thread_id: row.thread_id,
        kind: some_text(row.kind),
        location: some_text(row.location),
        attributes: some_text(row.attributes),
        event_attributes: some_text(row.event_attributes),
    }
}

/// The texts of a sequence of strings.
pub open spec fn name_texts(v: Seq<String>) -> Seq<Seq<char>> {
    Seq::new(v.len(), |i: int| v[i]@)
}

/// The first position from `from` on at which `name` stands.
pub open spec fn first_position(names: Seq<Seq<char>>, name: Seq<char>, from: int) -> Option<int>
    decreases names.len() - from,
{
    if from < 0 || from >= names.len() {
        None
    } else if names[from] == name {
        Some(from)
    } else {
        first_position(names, name, from + 1)
    }
}

/// The position of the column of the given name, or `fallback` where the
/// frame has no column of that name.
pub open spec fn column_of(names: Seq<Seq<char>>, name: Seq<char>, fallback: int) -> int {
    match first_position(names, name, 0) {
        Some(i) => i,
        None => fallback,
    }
}

/// The cell of a row in the column at a position: nothing where the frame
/// has no such column, `Nil` below the column's end.
pub open spec fn cell(cols: Seq<Column>, column: int, row: int) -> Option<EleView> {
    if 0 <= column < cols.len() {
        Some(
            if 0 <= row < cols[column].cells().len() {
                cols[column].cells()[row]
            } else {
                EleView::Nil
            },
        )
    } else {
        None
    }
}

/// A cell as text: a text as it is, a number in decimal; empty for anything
/// else.
pub open spec fn text_cell(c: Option<EleView>) -> Seq<char> {
    match c {
        Some(EleView::Text(s)) => s,
        Some(EleView::I32(x)) => signed_decimal(x as int),
        Some(EleView::I64(x)) => signed_decimal(x as int),
        Some(EleView::F32(_, t)) => t,
        Some(EleView::F64(_, t)) => t,
        _ => Seq::empty(),
    }
}

/// A cell as a number: a whole number as it is, another number cut to a
/// whole one, a text read as a number; zero for anything else.
pub open spec fn number_cell(c: Option<EleView>) -> i64 {
    match c {
        Some(EleView::I32(x)) => x as i64,
        Some(EleView::I64(x)) => x,
        Some(EleView::F32(bits, _)) => truncated32(bits),
        Some(EleView::F64(bits, _)) => truncated64(bits),
        Some(EleView::Text(s)) => match parse_i64(s) {
            Some(x) => x,
            None => 0,
        },
        _ => 0,
    }
}

/// A cell as an optional text: a text that is not empty.
pub open spec fn optional_text_cell(c: Option<EleView>) -> Option<Seq<char>> {
    match c {
        Some(EleView::Text(s)) => if s.len() > 0 {
            Some(s)
        } else {
            None
        },
        _ => None,
    }
}

/// A cell as an optional number: its number, unless that is -1.
pub open spec fn optional_number_cell(c: Option<EleView>) -> Option<i64> {
    if number_cell(c) == -1 {
        None
    } else {
        Some(number_cell(c))
    }
}

/// The row of the table that a row of the frame holds. Each column is found
/// by its name, or at its place in the table where the name is missing.
pub open spec fn frame_row(names: Seq<Seq<char>>, cols: Seq<Column>, row: int) -> RowView {
    RowView {
        record_type: text_cell(cell(cols, column_of(names, "record_type"@, 0), row)),
        trace_id: number_cell(cell(cols, column_of(names, "trace_id"@, 1), row)),
        span_id: number_cell(cell(cols, column_of(names, "span_id"@, 2), row)),
        parent_id: optional_number_cell(cell(cols, column_of(names, "parent_id"@, 3), row)),
        name: text_cell(cell(cols, column_of(names, "name"@, 4), row)),
        timestamp: number_cell(cell(cols, column_of(names, "timestamp"@, 5), row)),
        thread_id: number_cell(cell(cols, column_of(names, "thread_id"@, 6), row)),
        kind: optional_text_cell(cell(cols, column_of(names, "kind"@, 7), row)),
        location: optional_text_cell(cell(cols, column_of(names, "location"@, 8), row)),
        attributes: optional_text_cell(cell(cols, column_of(names, "attributes"@, 9), row)),
        event_attributes: optional_text_cell(cell(cols, column_of(names, "event_attributes"@, 10), row)),
    }
}

/// The length of the longest of the first `upto` columns.
pub open spec fn longest(cols: Seq<Column>, upto: int) -> nat
    decreases upto,
{
    if upto <= 0 || upto > cols.len() {
        0
    } else {
        let before = longest(cols, upto - 1);
        if cols[upto - 1].cells().len() > before {
            cols[upto - 1].cells().len()
        } else {
            before
        }
    }
}

fn position(names: &Vec<String>, name: &str, fallback: usize) -> (r: usize)
    ensures
        r == column_of(name_texts(names@), name@, fallback as int),
{
    let mut i: usize = 0;
    while i < names.len()
        invariant
            i <= names@.len(),
            first_position(name_texts(names@), name@, 0) == first_position(name_texts(names@), name@, i as int),
        decreases names@.len() - i,
    {
        proof {
            assert(name_texts(names@)[i as int] == names@[i as int]@);
        }
        if same_text(names[i].as_str(), name) {
            return i;
        }
        i += 1;
    }
    fallback
}

fn read_cell(cols: &Vec<Column>, column: usize, row: usize) -> (r: Option<Ele>)
    ensures
        match r {
            Some(e) => cell(cols@, column as int, row as int) == Some(e@),
            None => cell(cols@, column as int, row as int) is None,
        },
{
    if column < cols.len() {
        Some(cols[column].get(row))
    } else {
        None
    }
}

fn read_text(cols: &Vec<Column>, column: usize, row: usize) -> (r: String)
    ensures
        r@ == text_cell(cell(cols@, column as int, row as int)),
{
    match read_cell(cols, column, row) {
        Some(Ele::Text(s)) => s,
        Some(Ele::I32(x)) => signed_decimal_text(x as i64),
        Some(Ele::I64(x)) => signed_decimal_text(x),
        Some(Ele::F32(x)) => x.text,
        Some(Ele::F64(x)) => x.text,
        _ => String::new(),
    }
}

fn read_number(cols: &Vec<Column>, column: usize, row: usize) -> (r: i64)
    ensures
        r == number_cell(cell(cols@, column as int, row as int)),
{
    match read_cell(cols, column, row) {
        Some(Ele::I32(x)) => x as i64,
        Some(Ele::I64(x)) => x,
        Some(Ele::F32(x)) => x.truncated(),
        Some(Ele::F64(x)) => x.truncated(),
        Some(Ele::Text(s)) => match parse_i64_text(s.as_str()) {
            Some(x) => x,
            None => 0,
        },
        _ => 0,
    }
}

fn read_optional_text(cols: &Vec<Column>, column: usize, row: usize) -> (r: Option<String>)
    ensures
        some_text(r) == optional_text_cell(cell(cols@, column as int, row as int)),
{
    match read_cell(cols, column, row) {
        Some(Ele::Text(s)) => {
            if s.as_str().unicode_len() > 0 {
                Some(s)
            } else {
                None
            }
        },
        _ => None,
    }
}

fn read_optional_number(cols: &Vec<Column>, column: usize, row: usize) -> (r: Option<i64>)
    ensures
        r == optional_number_cell(cell(cols@, column as int, row as int)),
{
    let value = read_number(cols, column, row);
    if value == -1 {
        None
    } else {
        Some(value)
    }
}

/// The setting that a row of names and values holds: the name with the
/// value, or with nothing for a value that is missing; none where the name
/// or the value is no text.
pub open spec fn setting_of(name: EleView, value: EleView) -> Option<(Seq<char>, Seq<char>)> {
    match name {
        EleView::Text(n) => match value {
            EleView::Text(v) => Some((n, v)),
            EleView::Nil => Some((n, Seq::empty())),
            _ => None,
        },
        _ => None,
    }
}

/// The settings that the first `upto` rows of names and values hold.
pub open spec fn settings_upto(names: Seq<EleView>, values: Seq<EleView>, upto: int) -> Seq<
    (Seq<char>, Seq<char>),
>
    decreases upto,
{
    if upto <= 0 || upto > names.len() || upto > values.len() {
        Seq::empty()
    } else {
        match setting_of(names[upto - 1], values[upto - 1]) {
            Some(pair) => settings_upto(names, values, upto - 1).push(pair),
            None => settings_upto(names, values, upto - 1),
        }
    }
}

/// The settings of a frame whose first column holds names and whose second
/// holds values.
pub open spec fn settings_of(cols: Seq<Column>) -> Seq<(Seq<char>, Seq<char>)> {
    if cols.len() < 2 {
        Seq::empty()
    } else {
        let rows = if cols[0].cells().len() < cols[1].cells().len() {
            cols[0].cells().len()
        } else {
            cols[1].cells().len()
        };
        settings_upto(cols[0].cells(), cols[1].cells(), rows as int)
    }
}

/// The texts of a list of pairs.
pub open spec fn pair_texts(v: Seq<(String, String)>) -> Seq<(Seq<char>, Seq<char>)> {
    Seq::new(v.len(), |i: int| (v[i].0@, v[i].1@))
}

/// The mode of a call stack that a request names: `py`, `cpp` or `mixed`,
/// and `mixed` for anything else.
pub open spec fn stack_mode(mode: Seq<char>) -> Seq<char> {
    if mode == "py"@ || mode == "cpp"@ {
        mode
    } else {
        "mixed"@
    }
}

impl ApiClient {
    pub fn new() -> (r: Self)
        ensures
            r == ApiClient,
    {
        ApiClient
    }

    /// The settings that the frame of a query for the session's settings
    /// holds, in the order of its rows.
    pub fn get_profiler_config(&self, df: &DataFrame) -> (r: Vec<(String, String)>)
        ensures
            pair_texts(r@) == settings_of(df.cols@),
    {
        let mut result: Vec<(String, String)> = Vec::new();
        if df.cols.len() >= 2 {
            let names = &df.cols[0];
            let values = &df.cols[1];
            let nrows: usize = if names.len() < values.len() {
                names.len()
            } else {
                values.len()
            };
            let mut i: usize = 0;
            proof {
                assert(pair_texts(result@) =~= settings_upto(names.cells(), values.cells(), 0));
            }
            while i < nrows
                invariant
                    i <= nrows,
                    nrows <= names.cells().len(),
                    nrows <= values.cells().len(),
                    pair_texts(result@) == settings_upto(names.cells(), values.cells(), i as int),
                decreases nrows - i,
            {
                let ghost held = pair_texts(result@);
                match names.get(i) {
                    Ele::Text(name) => match values.get(i) {
                        Ele::Text(value) => {
                            result.push((name, value));
                            proof {
                                assert(pair_texts(result@) =~= held.push((name@, value@)));
                            }
                        },
                        Ele::Nil => {
                            result.push((name, String::new()));
                            proof {
                                assert(pair_texts(result@) =~= held.push((name@, Seq::<char>::empty())));
                            }
                        },
                        _ => {},
                    },
                    _ => {},
                }
                i += 1;
            }
        }
        result
    }

    /// The path of the request for a call stack.
    pub fn callstack_path(tid: Option<&str>, mode: &str) -> (r: String)
        ensures
            r@ == match tid {
                Some(t) => "/apis/pythonext/callstack?tid="@ + t@ + "&mode="@ + stack_mode(mode@),
                None => "/apis/pythonext/callstack?mode="@ + stack_mode(mode@),
            },
    {
        proof {
            reveal_strlit("py");
            reveal_strlit("cpp");
            reveal_strlit("mixed");
        }
        let known = same_text(mode, "py") || same_text(mode, "cpp") || same_text(mode, "mixed");
        let mut path = "/apis/pythonext/callstack?".to_owned();
        proof {
            reveal_strlit("/apis/pythonext/callstack?");
            reveal_strlit("/apis/pythonext/callstack?tid=");
            reveal_strlit("/apis/pythonext/callstack?mode=");
            reveal_strlit("tid=");
            reveal_strlit("&mode=");
            reveal_strlit("mode=");
        }
        match tid {
            Some(t) => {
                path.append("tid=");
                path.append(t);
                path.append("&mode=");
            },
            None => {
                path.append("mode=");
            },
        }
        if known {
            path.append(mode);
        } else {
            path.append("mixed");
        }
        proof {
            match tid {
                Some(t) => {
                    assert(path@ =~= "/apis/pythonext/callstack?tid="@ + t@ + "&mode="@ + stack_mode(mode@));
                },
                None => {
                    assert(path@ =~= "/apis/pythonext/callstack?mode="@ + stack_mode(mode@));
                },
            }
        }
        path
    }

    /// The path of the request for a flame graph of the given profiler.
    pub fn flamegraph_path(profiler_type: &str) -> (r: String)
        ensures
            r@ == "/apis/flamegraph/"@ + profiler_type@,
    {
        let mut path = "/apis/flamegraph/".to_owned();
        path.append(profiler_type);
        path
    }

    /// The queries that preview a table, to be tried in this order: the last
    /// ten rows by the first column, then any ten rows.
    pub fn preview_queries(table: &str) -> (r: Vec<String>)
        ensures
            r@.len() == 2,
            r@[0]@ == "select * from "@ + table@ + " order by 1 desc limit 10"@,
            r@[1]@ == "select * from "@ + table@ + " limit 10"@,
    {
        let mut first = "select * from ".to_owned();
        first.append(table);
        first.append(" order by 1 desc limit 10");
        let mut second = "select * from ".to_owned();
        second.append(table);
        second.append(" limit 10");
        let mut r: Vec<String> = Vec::new();
        r.push(first);
        r.push(second);
        r
    }

    /// The rows of the table `trace_event` that a frame holds: none for a
    /// frame without names or without columns, else one for each row of the
    /// frame's longest column.
    pub fn get_trace_events(&self, df: &DataFrame) -> (r: Vec<TraceEvent>)
        ensures
            df.names@.len() == 0 || df.cols@.len() == 0 ==> r@.len() == 0,
            df.names@.len() > 0 && df.cols@.len() > 0 ==> r@.len() == longest(df.cols@, df.cols@.len() as int),
            forall|i: int|
                0 <= i < r@.len() ==> row_view(#[trigger] r@[i]) == frame_row(name_texts(df.names@), df.cols@, i),
    {
        let mut events: Vec<TraceEvent> = Vec::new();
        if df.names.len() == 0 || df.cols.len() == 0 {
            return events;
        }
        let record_type_idx = position(&df.names, "record_type", 0);
        let trace_id_idx = position(&df.names, "trace_id", 1);
        let span_id_idx = position(&df.names, "span_id", 2);
        let parent_id_idx = position(&df.names, "parent_id", 3);
        let name_idx = position(&df.names, "name", 4);
        let timestamp_idx = position(&df.names, "timestamp", 5);
        let thread_id_idx = position(&df.names, "thread_id", 6);
        let kind_idx = position(&df.names, "kind", 7);
        let location_idx = position(&df.names, "location", 8);
        let attributes_idx = position(&df.names, "attributes", 9);
        let event_attributes_idx = position(&df.names, "event_attributes", 10);

        let mut nrows: usize = 0;
        let mut c: usize = 0;
        while c < df.cols.len()
            invariant
                c <= df.cols@.len(),
                nrows == longest(df.cols@, c as int),
            decreases df.cols@.len() - c,
        {
            let n = df.cols[c].len();
            if n > nrows {
                nrows = n;
            }
            c += 1;
        }

        let ghost names = name_texts(df.names@);
        let mut row: usize = 0;
        while row < nrows
            invariant
                row <= nrows,
                names == name_texts(df.names@),
                events@.len() == row,
                record_type_idx == column_of(names, "record_type"@, 0),
                trace_id_idx == column_of(names, "trace_id"@, 1),
                span_id_idx == column_of(names, "span_id"@, 2),
                parent_id_idx == column_of(names, "parent_id"@, 3),
                name_idx == column_of(names, "name"@, 4),
                timestamp_idx == column_of(names, "timestamp"@, 5),
                thread_id_idx == column_of(names, "thread_id"@, 6),
                kind_idx == column_of(names, "kind"@, 7),
                location_idx == column_of(names, "location"@, 8),
                attributes_idx == column_of(names, "attributes"@, 9),
                event_attributes_idx == column_of(names, "event_attributes"@, 10),
                forall|i: int| 0 <= i < row ==> row_view(#[trigger] events@[i]) == frame_row(names, df.cols@, i),
            decreases nrows - row,
        {
            events.push(
                TraceEvent {
                    record_type: read_text(&df.cols, record_type_idx, row),
                    trace_id: read_number(&df.cols, trace_id_idx, row),
                    span_id: read_number(&df.cols, span_id_idx, row),
                    parent_id: read_optional_number(&df.cols, parent_id_idx, row),
                    name: read_text(&df.cols, name_idx, row),
                    timestamp: read_number(&df.cols, timestamp_idx, row),
                    thread_id: read_number(&df.cols, thread_id_idx, row),
                    kind: read_optional_text(&df.cols, kind_idx, row),
                    location: read_optional_text(&df.cols, location_idx, row),
                    attributes: read_optional_text(&df.cols, attributes_idx, row),
                    event_attributes: read_optional_text(&df.cols, event_attributes_idx, row),
                },
            );
            row += 1;
        }
        events
    }

    /// The address of `path` at the page's origin.
    pub fn build_url(origin: &str, path: &str) -> (r: String)
        ensures
            r@ == origin@ + path@,
    {
        let mut url = origin.to_owned();
        url.append(path);
        url
    }
}

/// A span as the dashboard shows it, with the spans and events within it.
#[derive(Debug, PartialEq, Eq)]
pub struct SpanInfo {
    pub span_id: i64,
    pub trace_id: i64,
    pub parent_id: Option<i64>,
    pub name: String,
    pub start_timestamp: i64,
    pub end_timestamp: Option<i64>,
    pub thread_id: i64,
    pub kind: Option<String>,
    pub location: Option<String>,
    pub attributes: Option<String>,
    pub children: Vec<SpanInfo>,
    pub events: Vec<EventInfo>,
}

/// An event as the dashboard shows it.
#[derive(Debug, PartialEq, Eq)]
pub struct EventInfo {
    pub name: String,
    pub timestamp: i64,
    pub attributes: Option<String>,
}

impl Clone for EventInfo {
    fn clone(&self) -> (r: Self)
        ensures
            r == *self,
    {
        EventInfo {
            name: self.name.clone(),
            timestamp: self.timestamp,
            attributes: match &self.attributes {
                Some(a) => Some(a.clone()),
                None => None,
            },
        }
    }
}

} // verus!
