//! The durable row store interface, and an in-memory reference store that
//! keeps its rows in the order a fetch must return them: descending by
//! timestamp, insertion order among ties and rows without a readable one.

use vstd::prelude::*;

use crate::timestamp::{Timestamp, ts_le, parse_ts_chars, parse_ts};
use crate::transaction::{StorageRow, RowView};

verus! {

/// The store rejected or failed an operation, for example because it is
/// unreachable; the stored rows are unchanged.
#[derive(Clone, Copy, PartialEq, Eq, Structural, Debug)]
pub struct StoreError;

/// The views of a row vector, in order.
pub open spec fn row_views(rs: Seq<StorageRow>) -> Seq<RowView> {
    Seq::new(rs.len(), |i: int| rs[i]@)
}

/// The sort key of a stored row: its parsed timestamp. A row without one,
/// absent or unreadable, carries no ordering key and sorts last.
pub open spec fn row_ts_key(r: RowView) -> Option<Timestamp> {
    match r.timestamp {
        Some(sv) => parse_ts_chars(sv),
        None => None,
    }
}

/// Descending-timestamp order: `a` may stand before `b` in a fetch.
pub open spec fn row_before(a: RowView, b: RowView) -> bool {
    match (row_ts_key(a), row_ts_key(b)) {
        (Some(x), Some(y)) => ts_le(y, x),
        (Some(x), None) => true,
        (None, Some(y)) => false,
        (None, None) => true,
    }
}

/// The whole sequence stands in fetch order.
pub open spec fn sorted_desc(rows: Seq<RowView>) -> bool {
    forall|i: int, j: int|
        0 <= i < j < rows.len() ==> row_before(#[trigger] rows[i], #[trigger] rows[j])
}

/// Any two rows can stand in some order.
pub proof fn lemma_row_before_total(a: RowView, b: RowView)
    ensures
        row_before(a, b) || row_before(b, a),
{
}

pub proof fn lemma_row_before_trans(a: RowView, b: RowView, c: RowView)
    requires
        row_before(a, b),
        row_before(b, c),
    ensures
        row_before(a, c),
{
}

/// A durable row store. Fetches hand the rows back in descending timestamp
/// order; a failed insert leaves the store exactly as it was.
pub trait RowStore: Sized {
    /// The store's own well-formedness.
    spec fn inv(&self) -> bool;

    /// The stored rows, in the order a fetch returns them.
    spec fn rows(&self) -> Seq<RowView>;

    /// Insert exactly one row, atomically: either the row is added, or the
    /// store is unchanged.
    fn insert_row(&mut self, row: StorageRow) -> (r: Result<(), StoreError>)
        requires
            old(self).inv(),
        ensures
            final(self).inv(),
            r is Ok ==> final(self).rows().to_multiset() == old(self).rows().to_multiset().insert(
                row@,
            ),
            r is Err ==> final(self).rows() == old(self).rows(),
    ;

    /// Fetch every row, already ordered by the store.
    fn fetch_all_rows(&self) -> (r: Result<Vec<StorageRow>, StoreError>)
        requires
            self.inv(),
        ensures
            r matches Ok(v) ==> row_views(v@) == self.rows() && sorted_desc(self.rows()),
    ;
}

/// An in-memory store, the library's reference implementation: rows are held
/// sorted, and the store can be taken offline to observe failure behaviour.
pub struct MemStore {
    rows: Vec<StorageRow>,
    available: bool,
}

/// Decide whether `a` may stand before `b` in fetch order.
fn row_before_exec(a: &StorageRow, b: &StorageRow) -> (r: bool)
    ensures
        r == row_before(a@, b@),
{
    let ka = match &a.timestamp {
        Some(sv) => parse_ts(sv.as_str()),
        None => None,
    };
    let kb = match &b.timestamp {
        Some(sv) => parse_ts(sv.as_str()),
        None => None,
    };
    match (ka, kb) {
        (Some(x), Some(y)) => crate::timestamp::ts_le_exec(&y, &x),
        (Some(_), None) => true,
        (None, Some(_)) => false,
        (None, None) => true,
    }
}

/// The index before which every row may stand ahead of `row`.
fn insert_position(rows: &Vec<StorageRow>, row: &StorageRow) -> (idx: usize)
    ensures
        idx <= rows@.len(),
        forall|j: int| 0 <= j < idx ==> row_before(#[trigger] rows@[j]@, row@),
        idx < rows@.len() ==> !row_before(rows@[idx as int]@, row@),
{
    let n = rows.len();
    let mut idx: usize = 0;
    while idx < n
        invariant
            idx <= n,
            n == rows@.len(),
            forall|j: int| 0 <= j < idx ==> row_before(#[trigger] rows@[j]@, row@),
        decreases n - idx,
    {
        if !row_before_exec(&rows[idx], row) {
            return idx;
        }
        idx = idx + 1;
    }
    idx
}

impl MemStore {
    /// An empty, reachable store.
    pub fn new() -> (s: MemStore)
        ensures
            s.inv(),
            s.rows() == Seq::<RowView>::empty(),
            s.is_available(),
    {
        let s = MemStore { rows: Vec::new(), available: true };
        proof {
            assert(s.rows() =~= Seq::<RowView>::empty());
        }
        s
    }

    /// Whether the store answers at all.
    pub closed spec fn is_available(&self) -> bool {
        self.available
    }

    /// Make the store reachable or unreachable; the rows are untouched.
    pub fn set_available(&mut self, available: bool)
        ensures
            final(self).rows() == old(self).rows(),
            final(self).inv() == old(self).inv(),
            final(self).is_available() == available,
    {
        self.available = available;
    }
}

impl RowStore for MemStore {
    closed spec fn inv(&self) -> bool {
        sorted_desc(row_views(self.rows@))
    }

    closed spec fn rows(&self) -> Seq<RowView> {
        row_views(self.rows@)
    }

    fn insert_row(&mut self, row: StorageRow) -> (r: Result<(), StoreError>)
        ensures
            r is Ok <==> old(self).is_available(),
            final(self).is_available() == old(self).is_available(),
    {
        if !self.available {
            return Err(StoreError);
        }
        let idx = insert_position(&self.rows, &row);
        proof {
            let old_views = row_views(self.rows@);
            let new_views = row_views(self.rows@.insert(idx as int, row));
            assert(new_views =~= old_views.insert(idx as int, row@));
            assert forall|i: int, j: int|
                0 <= i < j < new_views.len() implies row_before(
                #[trigger] new_views[i],
                #[trigger] new_views[j],
            ) by {
                if j < idx {
                    assert(new_views[i] == old_views[i] && new_views[j] == old_views[j]);
                } else if j == idx {
                    assert(new_views[i] == old_views[i] && new_views[j] == row@);
                } else if i < idx {
                    assert(new_views[i] == old_views[i] && new_views[j] == old_views[j - 1]);
                } else if i == idx {
                    assert(new_views[i] == row@ && new_views[j] == old_views[j - 1]);
                    lemma_row_before_total(old_views[idx as int], row@);
                    if idx < j - 1 {
                        assert(row_before(old_views[idx as int], old_views[j - 1]));
                        lemma_row_before_trans(row@, old_views[idx as int], old_views[j - 1]);
                    }
                } else {
                    assert(new_views[i] == old_views[i - 1] && new_views[j] == old_views[j - 1]);
                }
            }
            vstd::seq_lib::to_multiset_insert(old_views, idx as int, row@);
        }
        self.rows.insert(idx, row);
        Ok(())
    }

    fn fetch_all_rows(&self) -> (r: Result<Vec<StorageRow>, StoreError>)
        ensures
            r is Ok <==> self.is_available(),
    {
        if !self.available {
            return Err(StoreError);
        }
        let n = self.rows.len();
        let mut out: Vec<StorageRow> = Vec::new();
        let mut i: usize = 0;
        while i < n
            invariant
                i <= n,
                n == self.rows@.len(),
                out@.len() == i,
                forall|j: int| 0 <= j < i ==> out@[j] == self.rows@[j],
            decreases n - i,
        {
            out.push(self.rows[i].clone());
            i = i + 1;
        }
        proof {
            assert(row_views(out@) =~= row_views(self.rows@));
        }
        Ok(out)
    }
}

} // verus!
