//! The record-to-object transformation with offset/limit windowing.
use vstd::prelude::*;

use crate::object::{entries_of, Entry, Object};
use crate::record::{RecordFault, RecordSource, RecordView};

verus! {

/// Why a conversion failed.
#[derive(Clone, Copy, Debug, PartialEq, Eq, Structural)]
pub enum ConversionError {
    /// The input holds no header record, or the header could not be read.
    Header,
    /// The record at the given position, counted from the first record after
    /// the skipped ones, could not be read or does not match the header's shape.
    Record(usize, RecordFault),
}

/// Why a record read after the header cannot become an object, if it cannot.
pub open spec fn row_fault(header: Seq<Seq<char>>, row: RecordView) -> Option<RecordFault> {
    match row {
        Err(f) => Some(f),
        Ok(cells) => if cells.len() == header.len() {
            None
        } else {
            Some(
                RecordFault::UnequalLengths {
                    expected_len: header.len() as u64,
                    len: cells.len() as u64,
                },
            )
        },
    }
}

/// The first index of `rows` kept by the window.
pub open spec fn window_start(rows_len: nat, offset: nat) -> nat {
    if offset <= rows_len {
        offset
    } else {
        rows_len
    }
}

/// One past the last index of `rows` kept by the window.
pub open spec fn window_end(rows_len: nat, offset: nat, limit: Option<usize>) -> nat {
    let start = window_start(rows_len, offset);
    match limit {
        None => rows_len,
        Some(n) => if start + n <= rows_len {
            (start + n) as nat
        } else {
            rows_len
        },
    }
}

/// The records kept after skipping `offset` and taking at most `limit`.
pub open spec fn window(rows: Seq<RecordView>, offset: nat, limit: Option<usize>) -> Seq<
    RecordView,
> {
    rows.subrange(
        window_start(rows.len(), offset) as int,
        window_end(rows.len(), offset, limit) as int,
    )
}

/// The objects built from `rows`, in order, or the first row's fault with its
/// index.
pub open spec fn collect(header: Seq<Seq<char>>, rows: Seq<RecordView>) -> Result<
    Seq<Seq<Entry>>,
    ConversionError,
>
    decreases rows.len(),
{
    if rows.len() == 0 {
        Ok(Seq::empty())
    } else {
        match collect(header, rows.drop_last()) {
            Err(e) => Err(e),
            Ok(prev) => match row_fault(header, rows.last()) {
                Some(f) => Err(ConversionError::Record((rows.len() - 1) as usize, f)),
                None => Ok(prev.push(entries_of(header, rows.last()->Ok_0))),
            },
        }
    }
}

/// The outcome of converting the record outcomes `outcomes`, the first of
/// which is the header.
pub open spec fn conversion(outcomes: Seq<RecordView>, offset: nat, limit: Option<usize>) -> Result<
    Seq<Seq<Entry>>,
    ConversionError,
> {
    if outcomes.len() == 0 {
        Err(ConversionError::Header)
    } else {
        match outcomes[0] {
            Err(_) => Err(ConversionError::Header),
            Ok(header) => collect(header, window(outcomes.drop_first(), offset, limit)),
        }
    }
}

pub open spec fn offset_of(offset: Option<usize>) -> nat {
    match offset {
        Some(s) => s as nat,
        None => 0,
    }
}

pub open spec fn objects_view(objs: Seq<Object>) -> Seq<Seq<Entry>> {
    objs.map_values(|o: Object| o@)
}

pub open spec fn result_view(r: Result<Vec<Object>, ConversionError>) -> Result<
    Seq<Seq<Entry>>,
    ConversionError,
> {
    match r {
        Ok(objs) => Ok(objects_view(objs@)),
        Err(e) => Err(e),
    }
}

/// A failure among the first `k` rows is the failure of all of them.
pub proof fn lemma_collect_prefix_err(header: Seq<Seq<char>>, rows: Seq<RecordView>, k: int)
    requires
        0 <= k <= rows.len(),
        collect(header, rows.take(k)) is Err,
    ensures
        collect(header, rows) == collect(header, rows.take(k)),
    decreases rows.len(),
{
    if k < rows.len() {
        assert(rows.drop_last().take(k) =~= rows.take(k));
        lemma_collect_prefix_err(header, rows.drop_last(), k);
    } else {
        assert(rows.take(k) =~= rows);
    }
}

/// Reads the header from `source`, skips `offset` records (default 0) and
/// turns at most `limit` further records (default: all) into objects, in
/// order. Reading stops at the first record that fails or does not match the
/// header's length.
pub fn transform<S: RecordSource>(source: &mut S, limit: Option<usize>, offset: Option<usize>) -> (r:
    Result<Vec<Object>, ConversionError>)
    ensures
        result_view(r) == conversion(old(source).pending(), offset_of(offset), limit),
        r matches Ok(objs) ==> forall|i: int| 0 <= i < objs@.len() ==> (#[trigger] objs@[i]).wf(),
{
    let ghost outcomes = source.pending();
    let header = match source.next_record() {
        None => {
            return Err(ConversionError::Header);
        },
        Some(Err(_)) => {
            return Err(ConversionError::Header);
        },
        Some(Ok(h)) => h,
    };
    let ghost hv = header.deep_view();
    let ghost rows = source.pending();
    assert(rows =~= outcomes.drop_first());
    let s: usize = match offset {
        Some(s) => s,
        None => 0,
    };
    let mut skipped: usize = 0;
    while skipped < s
        invariant
            skipped <= s,
            skipped <= rows.len(),
            outcomes == old(source).pending(),
            s as nat == offset_of(offset),
            outcomes.len() > 0,
            outcomes[0] == Ok::<Seq<Seq<char>>, RecordFault>(hv),
            rows == outcomes.drop_first(),
            source.pending() == rows.subrange(skipped as int, rows.len() as int),
        decreases s - skipped,
    {
        match source.next_record() {
            None => {
                assert(window(rows, s as nat, limit) =~= Seq::<RecordView>::empty());
                let none: Vec<Object> = Vec::new();
                assert(objects_view(none@) =~= Seq::<Seq<Entry>>::empty());
                return Ok(none);
            },
            Some(_) => {
                skipped = skipped + 1;
            },
        }
    }
    let ghost w = window(rows, s as nat, limit);
    let mut res: Vec<Object> = Vec::new();
    assert(rows.subrange(s as int, s as int) =~= Seq::<RecordView>::empty());
    assert(objects_view(res@) =~= Seq::<Seq<Entry>>::empty());
    loop
        invariant
            s + res@.len() <= rows.len(),
            source.pending() == rows.subrange(s + res@.len(), rows.len() as int),
            header.deep_view() == hv,
            outcomes == old(source).pending(),
            s as nat == offset_of(offset),
            outcomes.len() > 0,
            outcomes[0] == Ok::<Seq<Seq<char>>, RecordFault>(hv),
            rows == outcomes.drop_first(),
            w == window(rows, s as nat, limit),
            limit matches Some(n) ==> res@.len() <= n,
            collect(hv, rows.subrange(s as int, s + res@.len())) == Ok::<Seq<Seq<Entry>>, ConversionError>(objects_view(res@)),
            forall|i: int| 0 <= i < res@.len() ==> (#[trigger] res@[i]).wf(),
        decreases rows.len() - res@.len(),
    {
        let full = match limit {
            Some(n) => res.len() >= n,
            None => false,
        };
        if full {
            assert(w =~= rows.subrange(s as int, s + res@.len()));
            return Ok(res);
        }
        let ghost k: int = res@.len() as int;
        match source.next_record() {
            None => {
                assert(w =~= rows.subrange(s as int, s + res@.len()));
                return Ok(res);
            },
            Some(Err(f)) => {
                proof {
                    let p = rows.subrange(s as int, s + k + 1);
                    assert(p.drop_last() =~= rows.subrange(s as int, s + k));
                    assert(w.take(k + 1) =~= p);
                    lemma_collect_prefix_err(hv, w, k + 1);
                }
                return Err(ConversionError::Record(res.len(), f));
            },
            Some(Ok(cells)) => {
                if cells.len() != header.len() {
                    proof {
                        let p = rows.subrange(s as int, s + k + 1);
                        assert(p.drop_last() =~= rows.subrange(s as int, s + k));
                        assert(w.take(k + 1) =~= p);
                        lemma_collect_prefix_err(hv, w, k + 1);
                    }
                    return Err(
                        ConversionError::Record(
                            res.len(),
                            RecordFault::UnequalLengths {
                                expected_len: header.len() as u64,
                                len: cells.len() as u64,
                            },
                        ),
                    );
                }
                let obj = Object::from_record(&header, &cells);
                let ghost prev = res@;
                res.push(obj);
                proof {
                    let p = rows.subrange(s as int, s + k + 1);
                    assert(p.drop_last() =~= rows.subrange(s as int, s + k));
                    assert(objects_view(res@) =~= objects_view(prev).push(obj@));
                }
            },
        }
    }
}

} // verus!
