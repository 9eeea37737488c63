//! Extraction of one column from comma-separated text. The text is split
//! into rows and fields by the `csv` crate; which fields make up the column
//! is decided here.

use vstd::prelude::*;
use crate::error::ReadError;

verus! {

/// The error type of the `csv` crate, carried through unopened.
#[verifier::external_type_specification]
#[verifier::external_body]
pub struct ExCsvError(csv::Error);

/// The rows, each a sequence of fields, that the `csv` reader yields for
/// `data` when it takes no row for a header and accepts rows of any length;
/// `None` where the reader reports an error for some row.
pub uninterp spec fn csv_rows(data: Seq<u8>) -> Option<Seq<Seq<Seq<char>>>>;

/// Runs `csv::Reader::records` over `data`, with `has_headers(false)` and
/// `flexible(true)`, up to the first error. Trusted: the rows handed back are
/// the reader's rows for these bytes, field for field and in order, and an
/// error comes back exactly where the reader reports one.
#[verifier::external_body]
fn parse_rows(data: &[u8]) -> (r: Result<Vec<Vec<String>>, csv::Error>)
    ensures
        match r {
            Ok(rows) => csv_rows(data@) == Some(rows.deep_view()),
            Err(_) => csv_rows(data@) is None,
        },
{
    let mut reader = csv::ReaderBuilder::new().has_headers(false).flexible(true).from_reader(data);
    reader.records().map(|row| row.map(|fields| fields.iter().map(String::from).collect())).collect()
}

/// The test that picks the rows that reach column `i`.
pub open spec fn reaches(i: int) -> spec_fn(Seq<Seq<char>>) -> bool {
    |row: Seq<Seq<char>>| i < row.len()
}

/// Column `i` of `rows`: the field at index `i` of every row that has one,
/// in the order of the rows. Shorter rows leave no trace.
pub open spec fn column_of(rows: Seq<Seq<Seq<char>>>, i: int) -> Seq<Seq<char>> {
    rows.filter(reaches(i)).map_values(|row: Seq<Seq<char>>| row[i])
}

/// Column `i` of `rows`: the field at index `i` of every row that has more
/// than `i` fields, in the order of the rows. A shorter row is passed over.
pub fn select_column(rows: &Vec<Vec<String>>, i: usize) -> (r: Vec<String>)
    ensures
        r.deep_view() == column_of(rows.deep_view(), i as int),
{
    let ghost all = rows.deep_view();
    let mut out: Vec<String> = Vec::new();
    let mut k: usize = 0;
    proof {
        lemma_column_of_empty(i as int);
        assert(all.take(0) =~= Seq::<Seq<Seq<char>>>::empty());
        assert(out.deep_view() =~= Seq::<Seq<char>>::empty());
    }
    while k < rows.len()
        invariant
            k <= rows.len(),
            all == rows.deep_view(),
            out.deep_view() == column_of(all.take(k as int), i as int),
        decreases rows.len() - k,
    {
        let ghost before = out.deep_view();
        proof {
            assert(all.take(k + 1) =~= all.take(k as int).push(all[k as int]));
            lemma_column_of_push(all.take(k as int), all[k as int], i as int);
        }
        if i < rows[k].len() {
            out.push(rows[k][i].clone());
            assert(out.deep_view() =~= before.push(all[k as int][i as int]));
        }
        k += 1;
    }
    assert(all.take(k as int) =~= all);
    out
}

/// Column `i` (counted from zero) of the comma-separated text `data`, which
/// has no header row: the field at index `i` of every row that has one, in
/// the order of the rows. A row that cannot be decoded gives up the whole
/// read with `RowParseError`.
pub fn read_column(data: &[u8], i: usize) -> (r: Result<Vec<String>, ReadError>)
    ensures
        match csv_rows(data@) {
            Some(rows) => r matches Ok(column) && column.deep_view() == column_of(rows, i as int),
            None => r == Err::<Vec<String>, ReadError>(ReadError::RowParseError),
        },
{
    match parse_rows(data) {
        Ok(rows) => Ok(select_column(&rows, i)),
        Err(_) => Err(ReadError::RowParseError),
    }
}

/// No rows, no column.
pub proof fn lemma_column_of_empty(i: int)
    ensures
        column_of(Seq::<Seq<Seq<char>>>::empty(), i) == Seq::<Seq<char>>::empty(),
{
    reveal(Seq::filter);
    assert(column_of(Seq::<Seq<Seq<char>>>::empty(), i) =~= Seq::<Seq<char>>::empty());
}

/// One row more adds its field at index `i` to the end of the column where
/// the row has such a field, and changes nothing where it is too short.
pub proof fn lemma_column_of_push(rows: Seq<Seq<Seq<char>>>, row: Seq<Seq<char>>, i: int)
    requires
        0 <= i,
    ensures
        column_of(rows.push(row), i) == if i < row.len() {
            column_of(rows, i).push(row[i])
        } else {
            column_of(rows, i)
        },
{
    Seq::lemma_filter_push(rows, row, reaches(i));
    if i < row.len() {
        assert(column_of(rows.push(row), i) =~= column_of(rows, i).push(row[i]));
    }
}

/// Where every row reaches column `i`, the column has one value for each
/// row, in the order of the rows.
pub proof fn lemma_column_of_full_rows(rows: Seq<Seq<Seq<char>>>, i: int)
    requires
        0 <= i,
        forall|k: int| 0 <= k < rows.len() ==> i < (#[trigger] rows[k]).len(),
    ensures
        column_of(rows, i).len() == rows.len(),
        forall|k: int| 0 <= k < rows.len() ==> #[trigger] column_of(rows, i)[k] == rows[k][i],
    decreases rows.len(),
{
    if rows.len() == 0 {
        lemma_column_of_empty(i);
        assert(rows =~= Seq::<Seq<Seq<char>>>::empty());
    } else {
        let front = rows.drop_last();
        lemma_column_of_full_rows(front, i);
        lemma_column_of_push(front, rows.last(), i);
        assert(rows =~= front.push(rows.last()));
    }
}

} // verus!
