//! The result table: a header row `t,euler_y,exact_y,error` and one row per
//! sample, in order, encoded as CSV by the `csv` crate into bytes.
use vstd::prelude::*;

use crate::euler::Sample;

verus! {

/// A CSV writer into memory. Verus cannot take the writer's own type, whose
/// parameter is bound by `std::io::Write`, so it is held here out of sight.
#[verifier::external_body]
pub struct CsvSink {
    inner: csv::Writer<Vec<u8>>,
}

#[verifier::external_type_specification]
#[verifier::external_body]
pub struct ExCsvError(csv::Error);

/// The byte `,` that separates fields.
pub const COMMA: u8 = 44;

/// The byte `\n` that ends a record.
pub const NEWLINE: u8 = 10;

/// The bytes that a CSV writer into memory has taken so far, both those
/// still in its buffer and those handed on to its vector.
pub uninterp spec fn csv_written(w: CsvSink) -> Seq<u8>;

/// The field count of the first record a CSV writer took, which every later
/// record must match; none before the first record.
pub uninterp spec fn csv_width(w: CsvSink) -> Option<nat>;

/// A field that the default CSV dialect writes as it stands: ASCII, with no
/// delimiter, quote or line break in it.
pub open spec fn is_plain_field(f: Seq<char>) -> bool {
    forall|i: int|
        0 <= i < f.len() ==> {
            let c = #[trigger] f[i];
            &&& (c as u32) < 128
            &&& c != ','
            &&& c != '"'
            &&& c != '\r'
            &&& c != '\n'
        }
}

/// The bytes of an ASCII field.
pub open spec fn field_bytes(f: Seq<char>) -> Seq<u8> {
    f.map_values(|c: char| (c as u32) as u8)
}

/// The fields joined by commas.
pub open spec fn joined(fields: Seq<Seq<char>>) -> Seq<u8>
    decreases fields.len(),
{
    if fields.len() == 0 {
        Seq::empty()
    } else if fields.len() == 1 {
        field_bytes(fields[0])
    } else {
        joined(fields.drop_last()) + seq![COMMA] + field_bytes(fields.last())
    }
}

/// One record as a line: the fields joined by commas, then a newline.
pub open spec fn csv_line(fields: Seq<Seq<char>>) -> Seq<u8> {
    joined(fields) + seq![NEWLINE]
}

/// The text of each string.
pub open spec fn texts(v: Seq<String>) -> Seq<Seq<char>> {
    v.map_values(|s: String| s@)
}

/// Relies on csv::Writer::from_writer: a fresh writer into an empty vector,
/// with the default dialect (comma, double quote, newline terminator), has
/// taken no bytes.
#[verifier::external_body]
fn csv_writer() -> (w: CsvSink)
    ensures
        csv_written(w) == Seq::<u8>::empty(),
        csv_width(w) is None,
{
    CsvSink { inner: csv::Writer::from_writer(Vec::new()) }
}

/// Relies on csv::Writer::write_record: writing into a vector, it fails
/// only where the field count differs from that of the first record, and
/// then the writer is dropped. On success the record is taken as its fields
/// joined by commas and a newline, where each field needs no quoting and the
/// record has more than one field.
#[verifier::external_body]
fn csv_write_record(w: CsvSink, fields: &Vec<String>) -> (r: Result<CsvSink, csv::Error>)
    ensures
        (csv_width(w) is None || csv_width(w) == Some(fields@.len() as nat)) <==> r is Ok,
        r matches Ok(w2) ==> csv_width(w2) == Some(fields@.len() as nat),
        r matches Ok(w2) ==> (fields@.len() > 1 && (forall|i: int|
            0 <= i < fields@.len() ==> is_plain_field(#[trigger] fields@[i]@)) ==> csv_written(w2)
            == csv_written(w) + csv_line(texts(fields@))),
{
    let mut w = w;
    match w.inner.write_record(fields) {
        Ok(()) => Ok(w),
        Err(e) => Err(e),
    }
}

/// Relies on csv::Writer::into_inner: it flushes the buffer into the
/// vector, which cannot fail, and hands the vector back, which then holds
/// every byte the writer took.
#[verifier::external_body]
fn csv_into_bytes(w: CsvSink) -> (r: Option<Vec<u8>>)
    ensures
        r is Some,
        r matches Some(b) ==> b@ == csv_written(w),
{
    w.inner.into_inner().ok()
}

/// One row of the table, its four fields as text.
pub struct TableRow {
    pub t: String,
    pub euler_y: String,
    pub exact_y: String,
    pub error: String,
}

impl TableRow {
    /// The four fields in column order.
    pub open spec fn field_texts(&self) -> Seq<Seq<char>> {
        seq![self.t@, self.euler_y@, self.exact_y@, self.error@]
    }

    /// The four fields in column order, as a record to write.
    pub fn fields(&self) -> (r: Vec<String>)
        ensures
            texts(r@) == self.field_texts(),
    {
        let r = vec![self.t.clone(), self.euler_y.clone(), self.exact_y.clone(), self.error.clone()];
        assert(texts(r@) =~= self.field_texts());
        r
    }
}

/// Every field of the row is written as it stands.
pub open spec fn is_plain_row(r: TableRow) -> bool {
    forall|i: int| 0 <= i < 4 ==> is_plain_field(#[trigger] r.field_texts()[i])
}

/// The header's column names.
pub open spec fn header_texts() -> Seq<Seq<char>> {
    seq![
        seq!['t'],
        seq!['e', 'u', 'l', 'e', 'r', '_', 'y'],
        seq!['e', 'x', 'a', 'c', 't', '_', 'y'],
        seq!['e', 'r', 'r', 'o', 'r'],
    ]
}

/// The header record: `t`, `euler_y`, `exact_y`, `error`.
pub fn header() -> (r: Vec<String>)
    ensures
        texts(r@) == header_texts(),
{
    let r = vec![
        String::from_str("t"),
        String::from_str("euler_y"),
        String::from_str("exact_y"),
        String::from_str("error"),
    ];
    proof {
        reveal_strlit("t");
        reveal_strlit("euler_y");
        reveal_strlit("exact_y");
        reveal_strlit("error");
    }
    assert(r@[0]@ =~= header_texts()[0]);
    assert(r@[1]@ =~= header_texts()[1]);
    assert(r@[2]@ =~= header_texts()[2]);
    assert(r@[3]@ =~= header_texts()[3]);
    assert(texts(r@) =~= header_texts());
    r
}

/// The lines of the rows, in order.
pub open spec fn body_bytes(rows: Seq<TableRow>) -> Seq<u8>
    decreases rows.len(),
{
    if rows.len() == 0 {
        Seq::empty()
    } else {
        body_bytes(rows.drop_last()) + csv_line(rows.last().field_texts())
    }
}

/// The whole table: the header line, then one line per row.
pub open spec fn table_bytes(rows: Seq<TableRow>) -> Seq<u8> {
    csv_line(header_texts()) + body_bytes(rows)
}

/// Encodes the header and the rows, in order, as CSV. Every record has
/// four fields, so the writer takes them all. Where every field is plain the
/// bytes are exactly the comma-joined lines.
pub fn encode_table(rows: &Vec<TableRow>) -> (r: Vec<u8>)
    ensures
        (forall|i: int| 0 <= i < rows.len() ==> is_plain_row(#[trigger] rows[i])) ==> r@
            == table_bytes(rows@),
{
    let w0 = csv_writer();
    let head = header();
    proof {
        assert(is_plain_field(header_texts()[0]));
        assert(is_plain_field(header_texts()[1]));
        assert(is_plain_field(header_texts()[2]));
        assert(is_plain_field(header_texts()[3]));
        assert(head@.len() == texts(head@).len());
    }
    let mut w = match csv_write_record(w0, &head) {
        Ok(w1) => w1,
        Err(_) => {
            proof {
                assert(false);
            }
            return Vec::new();
        },
    };
    let mut i: usize = 0;
    while i < rows.len()
        invariant
            i <= rows.len(),
            csv_width(w) == Some(4nat),
            (forall|j: int| 0 <= j < rows.len() ==> is_plain_row(#[trigger] rows[j]))
                ==> csv_written(w) == table_bytes(rows@.take(i as int)),
        decreases rows.len() - i,
    {
        let rec = rows[i].fields();
        proof {
            assert(texts(rec@).len() == rec@.len());
            assert(rows[i as int].field_texts().len() == 4);
        }
        w = match csv_write_record(w, &rec) {
            Ok(w1) => w1,
            Err(_) => {
                proof {
                    assert(false);
                }
                return Vec::new();
            },
        };
        proof {
            let pre = rows@.take(i as int);
            let next = rows@.take(i + 1);
            assert(next.drop_last() =~= pre);
            assert(next.last() == rows[i as int]);
            if forall|j: int| 0 <= j < rows.len() ==> is_plain_row(#[trigger] rows[j]) {
                assert(is_plain_row(rows[i as int]));
                assert forall|k: int| 0 <= k < rec@.len() implies is_plain_field(#[trigger] rec@[k]@) by {
                    assert(texts(rec@)[k] == rec@[k]@);
                    assert(is_plain_field(rows[i as int].field_texts()[k]));
                }
            }
        }
        i = i + 1;
    }
    assert(rows@.take(rows.len() as int) =~= rows@);
    match csv_into_bytes(w) {
        Some(b) => b,
        None => {
            proof {
                assert(false);
            }
            Vec::new()
        },
    }
}

/// The table rows of a sample sequence, one per sample in order, each field
/// as `fmt` writes it.
pub fn table_rows<N, F>(samples: &Vec<Sample<N>>, fmt: F) -> (r: Vec<TableRow>) where
    N: Copy,
    F: Fn(N) -> String,

    requires
        forall|x: N| fmt.requires((x,)),
    ensures
        r.len() == samples.len(),
        forall|i: int|
            0 <= i < r.len() ==> {
                &&& fmt.ensures((samples[i].t,), #[trigger] r[i].t)
                &&& fmt.ensures((samples[i].approx_y,), r[i].euler_y)
                &&& fmt.ensures((samples[i].exact_y,), r[i].exact_y)
                &&& fmt.ensures((samples[i].error,), r[i].error)
            },
{
    let mut r: Vec<TableRow> = Vec::new();
    let mut i: usize = 0;
    while i < samples.len()
        invariant
            i <= samples.len(),
            r.len() == i,
            forall|x: N| fmt.requires((x,)),
            forall|j: int|
                0 <= j < i ==> {
                    &&& fmt.ensures((samples[j].t,), #[trigger] r[j].t)
                    &&& fmt.ensures((samples[j].approx_y,), r[j].euler_y)
                    &&& fmt.ensures((samples[j].exact_y,), r[j].exact_y)
                    &&& fmt.ensures((samples[j].error,), r[j].error)
                },
        decreases samples.len() - i,
    {
        let s = samples[i];
        let row = TableRow { t: fmt(s.t), euler_y: fmt(s.approx_y), exact_y: fmt(s.exact_y), error: fmt(s.error) };
        r.push(row);
        i = i + 1;
    }
    r
}

} // verus!
