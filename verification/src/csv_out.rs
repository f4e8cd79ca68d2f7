//! Laying the records out as a table, and the table as CSV.

use vstd::prelude::*;
use crate::record::{RecordView, ScrapedData};

verus! {

/// The largest number of values that any of `records` has; 0 for none.
pub open spec fn max_values(records: Seq<RecordView>) -> nat
    decreases records.len(),
{
    if records.len() == 0 {
        0
    } else {
        let rest = max_values(records.drop_last());
        if records.last().values.len() > rest {
            records.last().values.len()
        } else {
            rest
        }
    }
}

/// The header row: the name of each record, in order.
pub open spec fn header_of(records: Seq<RecordView>) -> Seq<Seq<char>> {
    Seq::new(records.len(), |j: int| records[j].name)
}

/// The body row `i`: of each record its value at place `i`, or the empty
/// string where it has none there.
pub open spec fn row_of(records: Seq<RecordView>, i: int) -> Seq<Seq<char>> {
    Seq::new(
        records.len(),
        |j: int|
            if i < records[j].values.len() {
                records[j].values[i]
            } else {
                Seq::empty()
            },
    )
}

/// The table of `records`: the header row, then one body row for each place
/// up to the largest number of values.
pub open spec fn table_of(records: Seq<RecordView>) -> Seq<Seq<Seq<char>>> {
    Seq::new(
        1 + max_values(records),
        |k: int|
            if k == 0 {
                header_of(records)
            } else {
                row_of(records, k - 1)
            },
    )
}

/// `max_values` is at least the number of values of each record, and is the
/// number of values of one of them unless there is no record.
pub proof fn lemma_max_values(records: Seq<RecordView>)
    ensures
        forall|j: int| 0 <= j < records.len() ==> (#[trigger] records[j]).values.len() <= max_values(records),
        records.len() == 0 ==> max_values(records) == 0,
        records.len() > 0 ==> exists|j: int|
            0 <= j < records.len() && (#[trigger] records[j]).values.len() == max_values(records),
    decreases records.len(),
{
    if records.len() > 0 {
        let init = records.drop_last();
        lemma_max_values(init);
        assert forall|j: int| 0 <= j < records.len() implies (#[trigger] records[j]).values.len()
            <= max_values(records) by {
            if j < init.len() {
                assert(records[j] == init[j]);
            }
        }
        if records.last().values.len() > max_values(init) || init.len() == 0 {
            assert(records[records.len() - 1].values.len() == max_values(records));
        } else {
            let j = choose|j: int|
                0 <= j < init.len() && (#[trigger] init[j]).values.len() == max_values(init);
            assert(records[j] == init[j]);
        }
    }
}

/// The table has one body row for each place up to the largest number of
/// values, and every row has one cell for each record.
pub proof fn lemma_table_shape(records: Seq<RecordView>)
    ensures
        table_of(records).len() == 1 + max_values(records),
        forall|k: int|
            0 <= k < table_of(records).len() ==> (#[trigger] table_of(records)[k]).len()
                == records.len(),
{
}

/// The largest number of values that any record has.
pub fn longest(data: &Vec<ScrapedData>) -> (out: usize)
    ensures
        out == max_values(data.deep_view()),
{
    let mut out: usize = 0;
    let mut j: usize = 0;
    assert(data.deep_view().take(0) =~= Seq::<RecordView>::empty());
    while j < data.len()
        invariant
            j <= data.len(),
            out == max_values(data.deep_view().take(j as int)),
        decreases data.len() - j,
    {
        proof {
            let after = data.deep_view().take(j + 1);
            assert(after.drop_last() =~= data.deep_view().take(j as int));
            assert(after.last() == data[j as int].deep_view());
        }
        if data[j].values.len() > out {
            out = data[j].values.len();
        }
        j += 1;
    }
    assert(data.deep_view().take(data.len() as int) =~= data.deep_view());
    out
}

/// The header row.
pub fn header_row(data: &Vec<ScrapedData>) -> (out: Vec<String>)
    ensures
        out.deep_view() == header_of(data.deep_view()),
{
    let mut out: Vec<String> = Vec::new();
    let mut j: usize = 0;
    while j < data.len()
        invariant
            j <= data.len(),
            out.len() == j,
            forall|k: int| 0 <= k < j ==> (#[trigger] out[k])@ == data[k].selector_name@,
        decreases data.len() - j,
    {
        out.push(data[j].selector_name.clone());
        j += 1;
    }
    assert(out.deep_view() =~= header_of(data.deep_view()));
    out
}

/// The body row `i`.
pub fn body_row(data: &Vec<ScrapedData>, i: usize) -> (out: Vec<String>)
    ensures
        out.deep_view() == row_of(data.deep_view(), i as int),
{
    let mut out: Vec<String> = Vec::new();
    let mut j: usize = 0;
    while j < data.len()
        invariant
            j <= data.len(),
            out.len() == j,
            forall|k: int|
                0 <= k < j ==> (#[trigger] out[k])@ == row_of(data.deep_view(), i as int)[k],
        decreases data.len() - j,
    {
        if i < data[j].values.len() {
            out.push(data[j].values[i].clone());
        } else {
            out.push(String::new());
        }
        j += 1;
    }
    assert(out.deep_view() =~= row_of(data.deep_view(), i as int));
    out
}

/// The table of `data`: the header row, then the body rows. Records with
/// fewer values than the longest are padded with empty cells; no cell moves
/// to another column.
pub fn csv_table(data: &Vec<ScrapedData>) -> (out: Vec<Vec<String>>)
    ensures
        out.deep_view() == table_of(data.deep_view()),
        out.len() == 1 + max_values(data.deep_view()),
        forall|k: int| 0 <= k < out.len() ==> (#[trigger] out[k]).len() == data.len(),
{
    let rows = longest(data);
    let mut out: Vec<Vec<String>> = Vec::new();
    out.push(header_row(data));
    let mut i: usize = 0;
    while i < rows
        invariant
            i <= rows,
            rows == max_values(data.deep_view()),
            out.len() == i + 1,
            forall|k: int|
                0 <= k <= i ==> (#[trigger] out[k]).deep_view() == table_of(data.deep_view())[k],
        decreases rows - i,
    {
        out.push(body_row(data, i));
        i += 1;
    }
    assert(out.deep_view() =~= table_of(data.deep_view()));
    assert forall|k: int| 0 <= k < out.len() implies (#[trigger] out[k]).len() == data.len() by {
        assert(out[k].deep_view().len() == table_of(data.deep_view())[k].len());
    }
    out
}

/// A `csv::Writer` with the default settings that writes into a vector of
/// bytes. Nothing inside it is read here: what it holds is known only by
/// `written_records`.
#[verifier::external_body]
pub struct CsvBuffer {
    inner: csv::Writer<Vec<u8>>,
}

/// `csv::Error`, carried through without being looked into.
#[verifier::external_type_specification]
#[verifier::external_body]
pub struct ExCsvError(csv::Error);

/// The records that were written to the buffer, in order.
pub uninterp spec fn written_records(buffer: CsvBuffer) -> Seq<Seq<Seq<char>>>;

/// The bytes that a `csv::Writer` with the default settings hands back from
/// `into_inner` after `records` were written to it.
pub uninterp spec fn csv_bytes(records: Seq<Seq<Seq<char>>>) -> Seq<u8>;

/// `csv::Writer::from_writer` on an empty vector of bytes: a writer with the
/// default settings to which nothing was written.
#[verifier::external_body]
fn memory_writer() -> (out: CsvBuffer)
    ensures
        written_records(out) == Seq::<Seq<Seq<char>>>::empty(),
{
    CsvBuffer { inner: csv::Writer::from_writer(Vec::new()) }
}

/// `csv::Writer::write_record`. With the default settings the writer refuses
/// a record that has another number of fields than the first one written,
/// which `requires` leaves out; writing to a vector of bytes does not fail,
/// so every other record is written.
#[verifier::external_body]
fn write_row(writer: &mut CsvBuffer, record: &Vec<String>) -> (out: Result<
    (),
    csv::Error,
>)
    requires
        written_records(*old(writer)).len() == 0 || written_records(*old(writer))[0].len()
            == record.len(),
    ensures
        out is Ok,
        written_records(*final(writer)) == written_records(*old(writer)).push(record.deep_view()),
{
    writer.inner.write_record(record)
}

/// `csv::Writer::into_inner`: flushes, and hands back the vector with all
/// that was written. `None` would stand for a flush that failed, which a
/// vector of bytes rules out.
#[verifier::external_body]
fn written_bytes(writer: CsvBuffer) -> (out: Option<Vec<u8>>)
    ensures
        out is Some,
        out->0@ == csv_bytes(written_records(writer)),
{
    writer.inner.into_inner().ok()
}

/// Why rows could not be written as CSV.
#[derive(Debug, PartialEq, Eq, Structural, Clone, Copy)]
pub enum CsvError {
    /// A row has another number of cells than the first row.
    UnequalLengths,
    /// The writer failed. Writing into memory rules this out.
    Writer,
}

impl CsvError {
    /// The error as a line of text.
    pub fn message(&self) -> (out: String)
        ensures
            out@ == match self {
                CsvError::UnequalLengths => "CSV rows of unequal lengths"@,
                CsvError::Writer => "CSV writer failed"@,
            },
    {
        match self {
            CsvError::UnequalLengths => String::from_str("CSV rows of unequal lengths"),
            CsvError::Writer => String::from_str("CSV writer failed"),
        }
    }
}

/// Whether every row has as many cells as the first.
pub open spec fn rectangular(rows: Seq<Seq<Seq<char>>>) -> bool {
    forall|k: int| 0 <= k < rows.len() ==> (#[trigger] rows[k]).len() == rows[0].len()
}

/// Writes `rows` as CSV, in memory. Rows of unequal lengths are refused.
pub fn encode_rows(rows: &Vec<Vec<String>>) -> (out: Result<Vec<u8>, CsvError>)
    ensures
        match out {
            Ok(bytes) => rectangular(rows.deep_view()) && bytes@ == csv_bytes(rows.deep_view()),
            Err(e) => !rectangular(rows.deep_view()) && e == CsvError::UnequalLengths,
        },
{
    let mut writer = memory_writer();
    let mut k: usize = 0;
    assert(rows.deep_view().take(0) =~= Seq::<Seq<Seq<char>>>::empty());
    while k < rows.len()
        invariant
            k <= rows.len(),
            forall|j: int| 0 <= j < k ==> (#[trigger] rows[j]).len() == rows[0].len(),
            written_records(writer) == rows.deep_view().take(k as int),
        decreases rows.len() - k,
    {
        proof {
            assert(rows.deep_view().take(k + 1) =~= rows.deep_view().take(k as int).push(
                rows[k as int].deep_view(),
            ));
            if k > 0 {
                assert(rows.deep_view().take(k as int)[0] == rows[0].deep_view());
            }
        }
        if rows[k].len() != rows[0].len() {
            assert(rows.deep_view()[k as int].len() != rows.deep_view()[0].len());
            return Err(CsvError::UnequalLengths);
        }
        match write_row(&mut writer, &rows[k]) {
            Ok(()) => {},
            Err(_) => {
                return Err(CsvError::Writer);
            },
        }
        k += 1;
    }
    assert(rows.deep_view().take(rows.len() as int) =~= rows.deep_view());
    assert forall|j: int| 0 <= j < rows.deep_view().len() implies (#[trigger] rows.deep_view()[j]).len()
        == rows.deep_view()[0].len() by {
        assert(rows[j].len() == rows[0].len());
    }
    match written_bytes(writer) {
        Some(bytes) => Ok(bytes),
        None => Err(CsvError::Writer),
    }
}

/// The records as CSV: a header row with the names, then the body rows.
pub fn to_csv(data: &Vec<ScrapedData>) -> (out: Result<Vec<u8>, CsvError>)
    ensures
        out is Ok,
        out->Ok_0@ == csv_bytes(table_of(data.deep_view())),
{
    let table = csv_table(data);
    proof {
        lemma_table_shape(data.deep_view());
    }
    encode_rows(&table)
}

} // verus!
