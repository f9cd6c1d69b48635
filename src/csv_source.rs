//! Records read from CSV text by the `csv` crate.
use vstd::prelude::*;

use crate::convert::{conversion, offset_of, result_view, transform, ConversionError};
use crate::object::Object;
use crate::record::{record_view, RecordFault, RecordRead, RecordSource, RecordView};

verus! {

#[verifier::external_type_specification]
#[verifier::external_body]
#[verifier::reject_recursive_types(R)]
pub struct ExCsvReader<R>(csv::Reader<R>);

/// The record outcomes that a reader over `data` yields, header row first.
pub uninterp spec fn csv_records(data: Seq<u8>) -> Seq<RecordView>;

/// The record outcomes that a reader has yet to yield.
pub uninterp spec fn csv_pending(rdr: csv::Reader<&[u8]>) -> Seq<RecordView>;

/// Relies on csv::ReaderBuilder::from_reader, with headers off, so that the
/// reader yields every record of `data`, the header row included.
#[verifier::external_body]
fn open_reader(data: &[u8]) -> (r: csv::Reader<&[u8]>)
    ensures
        csv_pending(r) == csv_records(data@),
{
    csv::ReaderBuilder::new().has_headers(false).from_reader(data)
}

/// Relies on csv::Reader::read_record: each call yields the next record or
/// its error and moves past it; once the input is exhausted it reports so,
/// and keeps reporting so.
#[verifier::external_body]
fn read_next(rdr: &mut csv::Reader<&[u8]>) -> (r: Option<RecordRead>)
    ensures
        csv_pending(*old(rdr)).len() == 0 ==> r.is_none() && csv_pending(*final(rdr)).len() == 0,
        csv_pending(*old(rdr)).len() > 0 ==> r.is_some() && record_view(r.unwrap()) == csv_pending(
            *old(rdr),
        )[0] && csv_pending(*final(rdr)) == csv_pending(*old(rdr)).drop_first(),
{
    let mut rec = csv::StringRecord::new();
    match rdr.read_record(&mut rec) {
        Ok(true) => Some(Ok(rec.iter().map(String::from).collect())),
        Ok(false) => None,
        Err(e) => Some(Err(match e.kind() {
            csv::ErrorKind::Utf8 { .. } => RecordFault::Utf8,
            csv::ErrorKind::UnequalLengths { expected_len, len, .. } => {
                RecordFault::UnequalLengths { expected_len: *expected_len, len: *len }
            },
            csv::ErrorKind::Io(_) => RecordFault::Io,
            _ => RecordFault::Other,
        })),
    }
}

/// A record source over CSV text held in memory.
pub struct CsvSource<'a> {
    rdr: csv::Reader<&'a [u8]>,
}

impl<'a> CsvSource<'a> {
    /// A source over the records of `data`, header row first.
    pub fn new(data: &'a [u8]) -> (r: CsvSource<'a>)
        ensures
            r.pending() == csv_records(data@),
    {
        CsvSource { rdr: open_reader(data) }
    }
}

impl<'a> RecordSource for CsvSource<'a> {
    closed spec fn pending(&self) -> Seq<RecordView> {
        csv_pending(self.rdr)
    }

    fn next_record(&mut self) -> (r: Option<RecordRead>) {
        read_next(&mut self.rdr)
    }
}

/// Converts the CSV text `data`: its first record is the header, `offset`
/// records (default 0) after it are skipped, and at most `limit` (default:
/// all) of the rest become objects.
pub fn csv_to_json(data: &[u8], limit: Option<usize>, offset: Option<usize>) -> (r: Result<
    Vec<Object>,
    ConversionError,
>)
    ensures
        result_view(r) == conversion(csv_records(data@), offset_of(offset), limit),
        r matches Ok(objs) ==> forall|i: int| 0 <= i < objs@.len() ==> (#[trigger] objs@[i]).wf(),
{
    let mut source = CsvSource::new(data);
    transform(&mut source, limit, offset)
}

} // verus!
