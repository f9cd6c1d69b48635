//! Records as read from a source, and the sources that yield them.
use vstd::prelude::*;

verus! {

/// Why a single record could not be read.
#[derive(Clone, Copy, Debug, PartialEq, Eq, Structural)]
pub enum RecordFault {
    /// The record's bytes are not valid UTF-8.
    Utf8,
    /// The record has `len` cells where `expected_len` were expected.
    UnequalLengths { expected_len: u64, len: u64 },
    /// The underlying stream failed.
    Io,
    /// Any other reader failure.
    Other,
}

/// The outcome of reading one record: its cells, or why it failed.
pub type RecordRead = Result<Vec<String>, RecordFault>;

/// The mathematical value of a record outcome.
pub type RecordView = Result<Seq<Seq<char>>, RecordFault>;

pub open spec fn record_view(r: RecordRead) -> RecordView {
    match r {
        Ok(cells) => Ok(cells.deep_view()),
        Err(f) => Err(f),
    }
}

/// A sequential source of record outcomes, read front to back.
pub trait RecordSource {
    /// The outcomes that successive calls of `next_record` will yield.
    spec fn pending(&self) -> Seq<RecordView>;

    /// Yields the next outcome, or `None` once the source is exhausted.
    fn next_record(&mut self) -> (r: Option<RecordRead>)
        ensures
            old(self).pending().len() == 0 ==> r.is_none() && final(self).pending().len() == 0,
            old(self).pending().len() > 0 ==> r.is_some() && record_view(r.unwrap())
                == old(self).pending()[0] && final(self).pending()
                == old(self).pending().drop_first(),
    ;
}

/// A copy of a row of cells.
pub fn clone_cells(cells: &Vec<String>) -> (r: Vec<String>)
    ensures
        r.deep_view() == cells.deep_view(),
{
    let mut r: Vec<String> = Vec::new();
    let mut i: usize = 0;
    while i < cells.len()
        invariant
            i <= cells@.len(),
            r@.len() == i,
            forall|j: int| 0 <= j < i ==> #[trigger] r@[j]@ == cells@[j]@,
        decreases cells@.len() - i,
    {
        r.push(cells[i].clone());
        i = i + 1;
    }
    assert(r.deep_view() =~= cells.deep_view());
    r
}

/// A source over outcomes already held in memory.
pub struct RecordList {
    items: Vec<RecordRead>,
    pos: usize,
}

impl RecordList {
    pub closed spec fn items_view(&self) -> Seq<RecordView> {
        self.items@.map_values(|r: RecordRead| record_view(r))
    }

    /// A source that yields `items` in order.
    pub fn new(items: Vec<RecordRead>) -> (r: RecordList)
        ensures
            r.pending() == items@.map_values(|x: RecordRead| record_view(x)),
    {
        RecordList { items, pos: 0 }
    }
}

impl RecordSource for RecordList {
    closed spec fn pending(&self) -> Seq<RecordView> {
        if self.pos <= self.items@.len() {
            self.items_view().subrange(self.pos as int, self.items@.len() as int)
        } else {
            Seq::empty()
        }
    }

    fn next_record(&mut self) -> (r: Option<RecordRead>) {
        if self.pos < self.items.len() {
            let item = match &self.items[self.pos] {
                Ok(cells) => Ok(clone_cells(cells)),
                Err(f) => Err(*f),
            };
            self.pos = self.pos + 1;
            Some(item)
        } else {
            None
        }
    }
}

} // verus!
