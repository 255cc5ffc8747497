//! The delimited-text codec around the table: parsing a whole byte buffer
//! into headers and rows, with strict column-count enforcement, and encoding
//! a table back into bytes.  The quote, escape and trimming conventions are
//! the csv crate's, behind trusted wrappers.

use vstd::prelude::*;
use crate::history::{Act, History};
use crate::inference::{inferred_types, spec_sample, TYPE_INFERENCE_SAMPLE_SIZE};
use crate::table::{ColType, CsvTable};

verus! {

/// Error reported by the engine's operations, each with a short message.
#[derive(Debug)]
pub enum CsvError {
    /// Reading or writing a byte source failed.
    Io(String),
    /// The delimited-text codec rejected the data.
    Csv(String),
    /// JSON serialization failed.
    Json(String),
    /// The data has an invalid structure, such as inconsistent column
    /// counts.
    InvalidData(String),
}

/// What the csv crate's reader makes of a byte buffer, with trimming on and
/// a fixed field count enforced: the headers (when asked for) and records,
/// or a parse failure.  A function of the bytes alone.
pub uninterp spec fn csv_parse(data: Seq<u8>, has_headers: bool) -> Result<
    (Option<Seq<Seq<char>>>, Seq<Seq<Seq<char>>>),
    Seq<char>,
>;

/// Relies on `csv::ReaderBuilder` and `csv::Reader` over an in-memory byte
/// slice, with `trim(All)` and `flexible(false)`: the headers and records
/// they yield, and whether they fail, are a function of the bytes and the
/// has-headers flag alone, named `csv_parse`.
#[verifier::external_body]
fn csv_parse_bytes(data: &[u8], has_headers: bool) -> (r: Result<
    (Option<Vec<String>>, Vec<Vec<String>>),
    String,
>)
    ensures
        r is Ok <==> csv_parse(data@, has_headers) is Ok,
        r matches Ok(v) ==> csv_parse(data@, has_headers) matches Ok(s) && v.0.deep_view() == s.0
            && v.1.deep_view() == s.1,
{
    let mut rdr = csv::ReaderBuilder::new().has_headers(has_headers).flexible(false).trim(csv::Trim::All).from_reader(data);
    let headers = if has_headers {
        match rdr.headers() { Ok(h) => Some(h.iter().map(|f| f.to_string()).collect()), Err(e) => return Err(format!("{}", e)) }
    } else { None };
    let mut rows: Vec<Vec<String>> = Vec::new();
    for record in rdr.records() {
        match record { Ok(rec) => rows.push(rec.iter().map(|f| f.to_string()).collect()), Err(e) => return Err(format!("{}", e)) }
    }
    Ok((headers, rows))
}

/// What the csv crate's writer makes of headers and rows: the encoded
/// bytes.  A function of the records alone.
pub uninterp spec fn csv_encode(headers: Option<Seq<Seq<char>>>, rows: Seq<Seq<Seq<char>>>) -> Seq<
    u8,
>;

/// Every written record — the headers when present, and each row — has the
/// same width `w`.
pub open spec fn uniform_width(
    headers: Option<Seq<Seq<char>>>,
    rows: Seq<Seq<Seq<char>>>,
    w: int,
) -> bool {
    &&& (match headers {
        Some(h) => h.len() == w,
        None => true,
    })
    &&& forall|i: int| 0 <= i < rows.len() ==> (#[trigger] rows[i]).len() == w
}

/// The records can be encoded: nothing to write, or one positive width
/// shared by every record.
pub open spec fn csv_encodable(headers: Option<Seq<Seq<char>>>, rows: Seq<Seq<Seq<char>>>) -> bool {
    ||| (headers is None && rows.len() == 0)
    ||| (exists|w: int| w >= 1 && uniform_width(headers, rows, w))
}

/// Relies on `csv::Writer` into an in-memory buffer: the bytes it writes
/// are a function of the records alone, named `csv_encode`; writing into
/// memory cannot fail on the byte sink, and the writer's fixed-field-count
/// check passes whenever every record has one same positive width.
#[verifier::external_body]
fn csv_write_bytes(headers: &Option<Vec<String>>, rows: &Vec<Vec<String>>) -> (r: Result<
    Vec<u8>,
    String,
>)
    ensures
        r matches Ok(v) ==> v@ == csv_encode(headers.deep_view(), rows.deep_view()),
        csv_encodable(headers.deep_view(), rows.deep_view()) ==> r is Ok,
{
    let mut wtr = csv::Writer::from_writer(Vec::new());
    if let Some(h) = headers {
        if let Err(e) = wtr.write_record(h) { return Err(format!("{}", e)); }
    }
    for row in rows {
        if let Err(e) = wtr.write_record(row) { return Err(format!("{}", e)); }
    }
    match wtr.into_inner() { Ok(buf) => Ok(buf), Err(e) => Err(format!("{}", e)) }
}

/// Every row has the first row's width.
pub open spec fn rows_consistent(rows: Seq<Seq<Seq<char>>>) -> bool {
    forall|i: int| 0 <= i < rows.len() ==> (#[trigger] rows[i]).len() == rows[0].len()
}

/// The column count a parsed buffer yields: header width when headers were
/// read, else the first row's width, else zero.
pub open spec fn parsed_col_count(
    headers: Option<Seq<Seq<char>>>,
    rows: Seq<Seq<Seq<char>>>,
) -> nat {
    match headers {
        Some(h) => h.len(),
        None => if rows.len() > 0 {
            rows[0].len()
        } else {
            0
        },
    }
}

impl CsvTable {
    /// Parses a whole delimited-text buffer into a table.  The codec's
    /// failures come back as `Csv` errors; a row whose field count differs
    /// from the first row's is an `InvalidData` error.  On success the
    /// table holds the parsed headers and rows, no filter, a fresh history,
    /// and the column types that inference assigns.
    #[verifier::loop_isolation(false)]
    pub fn from_reader(data: &[u8], has_headers: bool) -> (r: Result<Self, CsvError>)
        ensures
            match csv_parse(data@, has_headers) {
                Result::Err(_) => r matches Err(e) && e is Csv,
                Result::Ok(parsed) => {
                    if rows_consistent(parsed.1) {
                        &&& r matches Ok(t)
                        &&& r matches Ok(t) ==> ({
                            let cc = parsed_col_count(parsed.0, parsed.1);
                            &&& t.headers_model() == parsed.0
                            &&& t.rows_model() == parsed.1
                            &&& t.filter_model() is None
                            &&& t.history.undo_model() == Seq::<Act>::empty()
                            &&& t.history.redo_model() == Seq::<Act>::empty()
                            &&& t.types_model() == if cc == 0 {
                                Seq::<ColType>::empty()
                            } else {
                                inferred_types(
                                    parsed.1,
                                    cc,
                                    spec_sample(
                                        parsed.1.len(),
                                        None,
                                        TYPE_INFERENCE_SAMPLE_SIZE as nat,
                                    ),
                                )
                            }
                        })
                    } else {
                        r matches Err(e) && e is InvalidData
                    }
                },
            },
    {
        let parsed = match csv_parse_bytes(data, has_headers) {
            Ok(p) => p,
            Err(msg) => {
                return Err(CsvError::Csv(msg));
            },
        };
        let (headers, rows) = parsed;

        // enforce a consistent column count against the first row
        if rows.len() > 0 {
            let first_len = rows[0].len();
            let n = rows.len();
            let mut i: usize = 1;
            while i < n
                invariant
                    1 <= i <= n,
                    n == rows@.len(),
                    n > 0,
                    first_len == rows.deep_view()[0].len(),
                    forall|j: int|
                        0 <= j < i ==> (#[trigger] rows.deep_view()[j]).len() == first_len,
                decreases n - i,
            {
                if rows[i].len() != first_len {
                    proof {
                        assert((rows.deep_view()[i as int]).len() != rows.deep_view()[0].len());
                        assert(!rows_consistent(rows.deep_view()));
                    }
                    return Err(
                        CsvError::InvalidData("inconsistent column count".to_owned()),
                    );
                }
                i = i + 1;
            }
        }
        assert(rows_consistent(rows.deep_view()));

        let mut table = CsvTable {
            headers,
            data: rows,
            filtered_indices: None,
            col_types: Vec::new(),
            history: History::new(100),
        };
        let cc = table.column_count();
        let mut col_types: Vec<ColType> = Vec::new();
        let mut i: usize = 0;
        while i < cc
            invariant
                i <= cc,
                col_types@.len() == i,
            decreases cc - i,
        {
            col_types.push(ColType::Text);
            i = i + 1;
        }
        table.col_types = col_types;
        let ghost pre = table;
        table.infer_column_types(None);
        proof {
            if pre.spec_col_count() == 0 {
                assert(pre.types_model() =~~= Seq::<ColType>::empty());
            }
        }
        Ok(table)
    }

    /// Encodes the headers (when present) and all rows as delimited text.
    /// Encoding succeeds whenever the records share one positive width —
    /// every table whose rows match its column count — and any writer
    /// failure comes back as a `Csv` error.
    pub fn to_csv_bytes(&self) -> (r: Result<Vec<u8>, CsvError>)
        ensures
            r matches Ok(v) ==> v@ == csv_encode(self.headers_model(), self.rows_model()),
            csv_encodable(self.headers_model(), self.rows_model()) ==> r is Ok,
            r matches Err(e) ==> e is Csv,
    {
        match csv_write_bytes(&self.headers, &self.data) {
            Ok(v) => Ok(v),
            Err(msg) => Err(CsvError::Csv(msg)),
        }
    }
}

} // verus!
