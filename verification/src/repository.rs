//! The repository: create-one and read-many operations against a durable
//! row store, with conversion before any store call and whole-read failure
//! on the first row that does not convert.

use vstd::prelude::*;

use crate::store::{RowStore, row_views, sorted_desc};
use crate::transaction::{
    Transaction, TransactionView, RowView, MalformedRow, RowField, row_of, parse_row_chars,
};

verus! {

/// Ties a type to the name of the table that stores it.
pub trait Table {
    /// The table name, for specifications.
    spec fn spec_table_name() -> Seq<char>;

    /// The table name.
    fn table_name() -> (r: String)
        ensures
            r@ == Self::spec_table_name(),
    ;
}

impl Table for Transaction {
    open spec fn spec_table_name() -> Seq<char> {
        "transactions"@
    }

    fn table_name() -> (r: String) {
        String::from_str("transactions")
    }
}

/// The store rejected or failed to perform an insert; nothing was written.
#[derive(Clone, Copy, PartialEq, Eq, Structural, Debug)]
pub struct PersistError;

/// A snapshot read failed; the whole snapshot is untrustworthy.
#[derive(Clone, Copy, PartialEq, Eq, Structural, Debug)]
pub enum ReadError {
    /// The store did not answer the fetch.
    Store,
    /// A fetched row cannot be converted back into a transaction.
    Malformed(MalformedRow),
}

/// The views of a transaction vector, in order.
pub open spec fn tx_views(ts: Seq<Transaction>) -> Seq<TransactionView> {
    Seq::new(ts.len(), |i: int| ts[i]@)
}

/// Convert fetched rows in order; the first row that does not parse fails
/// the whole conversion with its field.
pub open spec fn parse_rows(rows: Seq<RowView>) -> Result<Seq<TransactionView>, RowField>
    decreases rows.len(),
{
    if rows.len() == 0 {
        Ok(Seq::<TransactionView>::empty())
    } else {
        match parse_row_chars(rows[0]) {
            Err(f) => Err(f),
            Ok(t) => match parse_rows(rows.skip(1)) {
                Err(f) => Err(f),
                Ok(ts) => Ok(seq![t] + ts),
            },
        }
    }
}

/// When every row parses, the conversion succeeds and keeps the order.
pub proof fn lemma_parse_rows_ok(rows: Seq<RowView>)
    requires
        forall|i: int| 0 <= i < rows.len() ==> parse_row_chars(#[trigger] rows[i]) is Ok,
    ensures
        parse_rows(rows) is Ok,
        parse_rows(rows)->Ok_0.len() == rows.len(),
        forall|i: int|
            0 <= i < rows.len() ==> parse_row_chars(#[trigger] rows[i]) == Ok::<
                TransactionView,
                RowField,
            >(parse_rows(rows)->Ok_0[i]),
    decreases rows.len(),
{
    if rows.len() > 0 {
        let rest = rows.skip(1);
        assert(forall|i: int| 0 <= i < rest.len() ==> #[trigger] rest[i] == rows[i + 1]);
        lemma_parse_rows_ok(rest);
        let t = parse_row_chars(rows[0])->Ok_0;
        let ts = parse_rows(rest)->Ok_0;
        assert forall|i: int| 0 <= i < rows.len() implies parse_row_chars(#[trigger] rows[i])
            == Ok::<TransactionView, RowField>((seq![t] + ts)[i]) by {
            if i == 0 {
                assert((seq![t] + ts)[0] == t);
            } else {
                assert((seq![t] + ts)[i] == ts[i - 1]);
                assert(rest[i - 1] == rows[i]);
            }
        }
    }
}

/// When the first `k` rows parse and row `k` does not, the conversion fails
/// with that row's field.
pub proof fn lemma_parse_rows_err(rows: Seq<RowView>, k: int, f: RowField)
    requires
        0 <= k < rows.len(),
        forall|i: int| 0 <= i < k ==> parse_row_chars(#[trigger] rows[i]) is Ok,
        parse_row_chars(rows[k]) == Err::<TransactionView, RowField>(f),
    ensures
        parse_rows(rows) == Err::<Seq<TransactionView>, RowField>(f),
    decreases k,
{
    if k > 0 {
        let rest = rows.skip(1);
        assert(forall|i: int| 0 <= i < rest.len() ==> #[trigger] rest[i] == rows[i + 1]);
        assert(rest[k - 1] == rows[k]);
        lemma_parse_rows_err(rest, k - 1, f);
    }
}

/// Descending-timestamp order between transactions; one without a timestamp
/// carries no ordering key and may only stand last.
pub open spec fn tx_before(a: TransactionView, b: TransactionView) -> bool {
    match (a.timestamp, b.timestamp) {
        (Some(x), Some(y)) => crate::timestamp::ts_le(y, x),
        (Some(_), None) => true,
        (None, Some(_)) => false,
        (None, None) => true,
    }
}

/// Reading keeps the store's order: when every row of an ordered fetch
/// parses, the transactions stand in descending timestamp order too.
pub proof fn lemma_read_keeps_order(rows: Seq<RowView>)
    requires
        sorted_desc(rows),
        forall|i: int| 0 <= i < rows.len() ==> parse_row_chars(#[trigger] rows[i]) is Ok,
    ensures
        forall|i: int, j: int|
            0 <= i < j < rows.len() ==> tx_before(
                #[trigger] parse_rows(rows)->Ok_0[i],
                #[trigger] parse_rows(rows)->Ok_0[j],
            ),
{
    lemma_parse_rows_ok(rows);
    let parsed = parse_rows(rows)->Ok_0;
    assert forall|i: int, j: int| 0 <= i < j < rows.len() implies tx_before(
        #[trigger] parsed[i],
        #[trigger] parsed[j],
    ) by {
        assert(parse_row_chars(rows[i]) == Ok::<TransactionView, RowField>(parsed[i]));
        assert(parse_row_chars(rows[j]) == Ok::<TransactionView, RowField>(parsed[j]));
        assert(crate::store::row_before(rows[i], rows[j]));
        assert(crate::store::row_ts_key(rows[i]) == parsed[i].timestamp);
        assert(crate::store::row_ts_key(rows[j]) == parsed[j].timestamp);
    }
}

/// A source of stored rows; what the repository capabilities speak about.
pub trait Stored {
    /// Well-formedness of the backing store.
    spec fn inv(&self) -> bool;

    /// The stored rows, in fetch order.
    spec fn rows(&self) -> Seq<RowView>;
}

/// Creating records: the value is converted first, so a malformed in-memory
/// value never reaches the store, and exactly one new row is inserted.
pub trait Create: Stored {
    /// Insert the given transaction as one new row; a failure leaves the
    /// store exactly as it was before the call.
    fn create_one(&mut self, value: Transaction) -> (r: Result<(), PersistError>)
        requires
            old(self).inv(),
            value.wf(),
        ensures
            final(self).inv(),
            r is Ok ==> final(self).rows().to_multiset() == old(self).rows().to_multiset().insert(
                row_of(value@),
            ),
            r is Err ==> final(self).rows() == old(self).rows(),
    ;
}

/// Reading records: fetch every row, convert each one, and fail the whole
/// read on the first row that does not convert — never a partial list.
pub trait Read: Stored {
    /// Read every stored transaction, most recent first.
    fn read_many(&self) -> (r: Result<Vec<Transaction>, ReadError>)
        requires
            self.inv(),
        ensures
            match r {
                Ok(ts) => parse_rows(self.rows()) == Ok::<Seq<TransactionView>, RowField>(
                    tx_views(ts@),
                ) && sorted_desc(self.rows()),
                Err(e) => match e {
                    ReadError::Malformed(m) => parse_rows(self.rows()) == Err::<
                        Seq<TransactionView>,
                        RowField,
                    >(m.field),
                    ReadError::Store => true,
                },
            },
    ;
}

/// The repository over a durable store; the handle is injected at
/// construction and used by every operation.
pub struct Repository<S: RowStore> {
    pub store: S,
}

impl<S: RowStore> Repository<S> {
    /// Build a repository around an explicit store handle.
    pub fn new(store: S) -> (r: Repository<S>)
        ensures
            r.store == store,
    {
        Repository { store }
    }
}

impl<S: RowStore> Stored for Repository<S> {
    open spec fn inv(&self) -> bool {
        self.store.inv()
    }

    open spec fn rows(&self) -> Seq<RowView> {
        self.store.rows()
    }
}

impl<S: RowStore> Create for Repository<S> {
    fn create_one(&mut self, value: Transaction) -> (r: Result<(), PersistError>) {
        // the conversion is total and runs before any store call
        let row = value.to_row();
        match self.store.insert_row(row) {
            Ok(()) => Ok(()),
            Err(_) => Err(PersistError),
        }
    }
}

impl<S: RowStore> Read for Repository<S> {
    fn read_many(&self) -> (r: Result<Vec<Transaction>, ReadError>) {
        let rows = match self.store.fetch_all_rows() {
            Ok(v) => v,
            Err(_) => {
                return Err(ReadError::Store);
            },
        };
        let n = rows.len();
        let mut out: Vec<Transaction> = Vec::new();
        let mut i: usize = 0;
        while i < n
            invariant
                i <= n,
                n == rows@.len(),
                row_views(rows@) == self.store.rows(),
                out@.len() == i,
                forall|j: int|
                    0 <= j < i ==> parse_row_chars(#[trigger] row_views(rows@)[j]) == Ok::<
                        TransactionView,
                        RowField,
                    >(out@[j]@),
            decreases n - i,
        {
            let row = rows[i].clone();
            match Transaction::from_row(row) {
                Ok(t) => {
                    out.push(t);
                    proof {
                        assert(row_views(rows@)[i as int] == rows@[i as int]@);
                    }
                },
                Err(e) => {
                    proof {
                        assert(row_views(rows@)[i as int] == rows@[i as int]@);
                        lemma_parse_rows_err(row_views(rows@), i as int, e.field);
                    }
                    return Err(ReadError::Malformed(e));
                },
            }
            i = i + 1;
        }
        proof {
            lemma_parse_rows_ok(row_views(rows@));
            let parsed = parse_rows(row_views(rows@))->Ok_0;
            assert forall|j: int| 0 <= j < n implies tx_views(out@)[j] == parsed[j] by {
                assert(parse_row_chars(row_views(rows@)[j]) == Ok::<TransactionView, RowField>(
                    out@[j]@,
                ));
                assert(parse_row_chars(row_views(rows@)[j]) == Ok::<TransactionView, RowField>(
                    parsed[j],
                ));
            }
            assert(tx_views(out@) =~= parsed);
        }
        Ok(out)
    }
}

} // verus!
