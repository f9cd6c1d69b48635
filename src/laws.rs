//! Laws that every conversion obeys, stated over the conversion model.
use vstd::prelude::*;

use crate::convert::{collect, conversion, row_fault, window, ConversionError};
use crate::object::{entries_of, key_set, lemma_entries_upto, Entry};
use crate::record::RecordView;

verus! {

/// A header is readable, and every record after it reads and has as many
/// cells as the header has fields.
pub open spec fn well_formed(outcomes: Seq<RecordView>) -> bool {
    &&& outcomes.len() > 0
    &&& outcomes[0] is Ok
    &&& forall|i: int|
        1 <= i < outcomes.len() ==> row_fault(outcomes[0]->Ok_0, #[trigger] outcomes[i]) is None
}

/// Rows without faults all become objects, in order.
proof fn lemma_collect_clean(header: Seq<Seq<char>>, rows: Seq<RecordView>)
    requires
        forall|i: int| 0 <= i < rows.len() ==> row_fault(header, #[trigger] rows[i]) is None,
    ensures
        collect(header, rows) == Ok::<Seq<Seq<Entry>>, ConversionError>(
            rows.map_values(|r: RecordView| entries_of(header, r->Ok_0)),
        ),
    decreases rows.len(),
{
    if rows.len() > 0 {
        lemma_collect_clean(header, rows.drop_last());
        assert(rows.map_values(|r: RecordView| entries_of(header, r->Ok_0)) =~= rows.drop_last().map_values(
            |r: RecordView| entries_of(header, r->Ok_0),
        ).push(entries_of(header, rows.last()->Ok_0)));
    } else {
        assert(rows.map_values(|r: RecordView| entries_of(header, r->Ok_0)) =~= Seq::<
            Seq<Entry>,
        >::empty());
    }
}

/// Converting `u` followed by `v` succeeds exactly when both convert, and then
/// gives the objects of `u` followed by those of `v`.
proof fn lemma_collect_concat(header: Seq<Seq<char>>, u: Seq<RecordView>, v: Seq<RecordView>)
    ensures
        (collect(header, u + v) is Ok) == (collect(header, u) is Ok && collect(header, v) is Ok),
        collect(header, u + v) is Ok ==> collect(header, u + v)->Ok_0 == collect(header, u)->Ok_0
            + collect(header, v)->Ok_0,
    decreases v.len(),
{
    if v.len() == 0 {
        assert(u + v =~= u);
        assert(collect(header, u)->Ok_0 + Seq::<Seq<Entry>>::empty() =~= collect(header, u)->Ok_0);
    } else {
        lemma_collect_concat(header, u, v.drop_last());
        assert((u + v).drop_last() =~= u + v.drop_last());
        assert((u + v).last() == v.last());
        if collect(header, u + v) is Ok {
            let x = collect(header, u)->Ok_0;
            let y0 = collect(header, v.drop_last())->Ok_0;
            let e = entries_of(header, v.last()->Ok_0);
            assert((x + y0).push(e) =~= x + y0.push(e));
        }
    }
}

/// With no window, a well-formed input gives one object per record after
/// the header, in order, each keyed by exactly the header's fields.
pub proof fn law_full_conversion(outcomes: Seq<RecordView>)
    requires
        well_formed(outcomes),
    ensures
        conversion(outcomes, 0, None) is Ok,
        conversion(outcomes, 0, None)->Ok_0.len() == outcomes.len() - 1,
        forall|i: int|
            0 <= i < outcomes.len() - 1 ==> key_set(
                #[trigger] conversion(outcomes, 0, None)->Ok_0[i],
            ) == outcomes[0]->Ok_0.to_set(),
{
    let header = outcomes[0]->Ok_0;
    let rows = outcomes.drop_first();
    assert(window(rows, 0, None) =~= rows);
    assert forall|i: int| 0 <= i < rows.len() implies row_fault(header, #[trigger] rows[i]) is None by {
        assert(rows[i] == outcomes[i + 1]);
    }
    lemma_collect_clean(header, rows);
    assert forall|i: int| 0 <= i < outcomes.len() - 1 implies key_set(
        #[trigger] conversion(outcomes, 0, None)->Ok_0[i],
    ) == header.to_set() by {
        assert(row_fault(header, rows[i]) is None);
        lemma_entries_upto(header, rows[i]->Ok_0, header.len());
        assert(header.take(header.len() as int) =~= header);
    }
}

/// Skipping at least as many records as follow the header gives no objects
/// and no error, whatever the limit.
pub proof fn law_offset_past_end(outcomes: Seq<RecordView>, offset: nat, limit: Option<usize>)
    requires
        outcomes.len() > 0,
        outcomes[0] is Ok,
        offset >= outcomes.len() - 1,
    ensures
        conversion(outcomes, offset, limit) == Ok::<Seq<Seq<Entry>>, ConversionError>(
            Seq::empty(),
        ),
{
    assert(window(outcomes.drop_first(), offset, limit) =~= Seq::<RecordView>::empty());
}

/// A limit of zero gives no objects whatever the offset, yet a missing or
/// unreadable header still fails.
pub proof fn law_zero_limit(outcomes: Seq<RecordView>, offset: nat)
    ensures
        conversion(outcomes, offset, Some(0usize)) == if outcomes.len() > 0 && outcomes[0] is Ok {
            Ok::<Seq<Seq<Entry>>, ConversionError>(Seq::empty())
        } else {
            Err(ConversionError::Header)
        },
{
    if outcomes.len() > 0 && outcomes[0] is Ok {
        assert(window(outcomes.drop_first(), offset, Some(0usize)) =~= Seq::<RecordView>::empty());
    }
}

/// The windows `(a, b)` and `(a + b, c)` are adjacent: together they convert
/// exactly when the window `(a, b + c)` does, and then its objects are theirs
/// in order, none repeated and none left out.
pub proof fn law_window_composition(outcomes: Seq<RecordView>, a: usize, b: usize, c: usize)
    requires
        a + b <= usize::MAX,
        b + c <= usize::MAX,
    ensures
        (conversion(outcomes, a as nat, Some((b + c) as usize)) is Ok) == (conversion(
            outcomes,
            a as nat,
            Some(b),
        ) is Ok && conversion(outcomes, (a + b) as nat, Some(c)) is Ok),
        conversion(outcomes, a as nat, Some((b + c) as usize)) is Ok ==> conversion(
            outcomes,
            a as nat,
            Some((b + c) as usize),
        )->Ok_0 == conversion(outcomes, a as nat, Some(b))->Ok_0 + conversion(
            outcomes,
            (a + b) as nat,
            Some(c),
        )->Ok_0,
{
    if outcomes.len() > 0 && outcomes[0] is Ok {
        let header = outcomes[0]->Ok_0;
        let rows = outcomes.drop_first();
        let w1 = window(rows, a as nat, Some(b));
        let w2 = window(rows, (a + b) as nat, Some(c));
        assert(window(rows, a as nat, Some((b + c) as usize)) =~= w1 + w2);
        lemma_collect_concat(header, w1, w2);
    }
}

} // verus!
