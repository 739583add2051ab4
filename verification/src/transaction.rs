//! The transaction entity, its storage-row counterpart, and the fallible
//! conversion between the two.

use vstd::prelude::*;

use crate::amount::{Amount, amount_chars, parse_amount_chars, encode_amount, parse_amount};
use crate::ids::{
    TransactionId, id_chars, parse_id_chars, encode_id, parse_id, fresh_id, lemma_id_round_trip,
};
use crate::amount::lemma_amount_round_trip;
use crate::timestamp::{
    Timestamp, ts_chars, parse_ts_chars, encode_ts, parse_ts, lemma_ts_round_trip,
};

verus! {

/// The row field a failed conversion blames.
#[derive(Clone, Copy, PartialEq, Eq, Structural, Debug)]
pub enum RowField {
    Id,
    Amount,
    Timestamp,
    Payee,
}

/// A stored row that cannot be read back into a transaction, naming the
/// field that failed to parse.
#[derive(Clone, Copy, PartialEq, Eq, Structural, Debug)]
pub struct MalformedRow {
    pub field: RowField,
}

/// A recorded monetary transaction.
#[derive(Debug)]
pub struct Transaction {
    pub id: TransactionId,
    pub amount: Amount,
    pub payee: String,
    pub description: Option<String>,
    pub timestamp: Option<Timestamp>,
}

/// The mathematical value of a transaction.
#[verifier::ext_equal]
pub struct TransactionView {
    pub id: TransactionId,
    pub amount: Amount,
    pub payee: Seq<char>,
    pub description: Option<Seq<char>>,
    pub timestamp: Option<Timestamp>,
}

impl View for Transaction {
    type V = TransactionView;

    open spec fn view(&self) -> TransactionView {
        TransactionView {
            id: self.id,
            amount: self.amount,
            payee: self.payee@,
            description: match self.description {
                Some(d) => Some(d@),
                None => None,
            },
            timestamp: self.timestamp,
        }
    }
}

/// The storable form of a transaction: every field a storage-safe scalar.
#[derive(Debug)]
pub struct StorageRow {
    pub id: String,
    pub amount: String,
    pub description: Option<String>,
    pub payee: String,
    pub timestamp: Option<String>,
}

/// The mathematical value of a storage row.
#[verifier::ext_equal]
pub struct RowView {
    pub id: Seq<char>,
    pub amount: Seq<char>,
    pub description: Option<Seq<char>>,
    pub payee: Seq<char>,
    pub timestamp: Option<Seq<char>>,
}

impl View for StorageRow {
    type V = RowView;

    open spec fn view(&self) -> RowView {
        RowView {
            id: self.id@,
            amount: self.amount@,
            description: match self.description {
                Some(d) => Some(d@),
                None => None,
            },
            payee: self.payee@,
            timestamp: match self.timestamp {
                Some(t) => Some(t@),
                None => None,
            },
        }
    }
}

impl Clone for Transaction {
    fn clone(&self) -> (r: Self)
        ensures
            r == *self,
    {
        Transaction {
            id: self.id,
            amount: self.amount,
            payee: self.payee.clone(),
            description: match &self.description {
                Some(d) => Some(d.clone()),
                None => None,
            },
            timestamp: self.timestamp,
        }
    }
}

impl Clone for StorageRow {
    fn clone(&self) -> (r: Self)
        ensures
            r == *self,
    {
        StorageRow {
            id: self.id.clone(),
            amount: self.amount.clone(),
            description: match &self.description {
                Some(d) => Some(d.clone()),
                None => None,
            },
            payee: self.payee.clone(),
            timestamp: match &self.timestamp {
                Some(t) => Some(t.clone()),
                None => None,
            },
        }
    }
}

/// Absence and the empty string are one semantic state: no description.
pub open spec fn normalize_desc(d: Option<Seq<char>>) -> Option<Seq<char>> {
    match d {
        Some(t) => if t.len() == 0 {
            None
        } else {
            Some(t)
        },
        None => None,
    }
}

impl TransactionView {
    /// What every transaction must satisfy: a representable amount, a real
    /// calendar timestamp where one is set, a non-empty payee, and a
    /// normalized description.
    pub open spec fn wf(self) -> bool {
        &&& self.amount.wf()
        &&& (self.timestamp matches Some(t) ==> t.wf())
        &&& self.payee.len() > 0
        &&& (self.description matches Some(d) ==> d.len() > 0)
    }

    /// Best-effort content match: the fields a submitter knows before the
    /// generated identifier is known.
    pub open spec fn content_matches(self, other: TransactionView) -> bool {
        self.payee == other.payee && self.amount == other.amount && self.description
            == other.description
    }
}

/// The row a transaction is stored as.
pub open spec fn row_of(t: TransactionView) -> RowView {
    RowView {
        id: id_chars(t.id),
        amount: amount_chars(t.amount),
        description: t.description,
        payee: t.payee,
        timestamp: match t.timestamp {
            Some(ts) => Some(ts_chars(ts)),
            None => None,
        },
    }
}

/// The finished transaction of a row whose scalar fields already parsed.
pub open spec fn assembled_row(
    id: TransactionId,
    amount: Amount,
    r: RowView,
    ts: Option<Timestamp>,
) -> Result<TransactionView, RowField> {
    if r.payee.len() == 0 {
        Err(RowField::Payee)
    } else {
        Ok(
            TransactionView {
                id,
                amount,
                payee: r.payee,
                description: normalize_desc(r.description),
                timestamp: ts,
            },
        )
    }
}

/// The transaction a row denotes, or the first field that fails to parse.
pub open spec fn parse_row_chars(r: RowView) -> Result<TransactionView, RowField> {
    match parse_id_chars(r.id) {
        None => Err(RowField::Id),
        Some(id) => match parse_amount_chars(r.amount) {
            None => Err(RowField::Amount),
            Some(amount) => match r.timestamp {
                Some(sv) => match parse_ts_chars(sv) {
                    None => Err(RowField::Timestamp),
                    Some(ts) => assembled_row(id, amount, r, Some(ts)),
                },
                None => assembled_row(id, amount, r, None),
            },
        },
    }
}

/// Whatever a row parses into is well formed.
pub proof fn lemma_parsed_row_wf(r: RowView)
    ensures
        parse_row_chars(r) matches Ok(t) ==> t.wf(),
{
    crate::amount::lemma_parsed_amount_wf(r.amount);
}

/// A malformed row is rejected, never patched up, and the error names the
/// first field that failed: a row whose identifier is no identifier string
/// is blamed on the identifier, and one whose amount is not numeric on the
/// amount.
pub proof fn lemma_malformed_row_rejected(r: RowView)
    ensures
        parse_id_chars(r.id) is None ==> parse_row_chars(r) == Err::<TransactionView, RowField>(
            RowField::Id,
        ),
        parse_id_chars(r.id) is Some && parse_amount_chars(r.amount) is None ==> parse_row_chars(r)
            == Err::<TransactionView, RowField>(RowField::Amount),
{
}

/// Converting a stored row back recovers every well-formed transaction
/// exactly: identifier, amount, payee, description and timestamp.
pub proof fn lemma_row_round_trip(t: TransactionView)
    requires
        t.wf(),
    ensures
        parse_row_chars(row_of(t)) == Ok::<TransactionView, RowField>(t),
{
    lemma_id_round_trip(t.id);
    lemma_amount_round_trip(t.amount);
    if t.timestamp is Some {
        lemma_ts_round_trip(t.timestamp->Some_0);
    }
    assert(parse_row_chars(row_of(t))->Ok_0 =~= t);
}

/// Storing is a pure function of the value: equal transactions give equal
/// rows, however often the conversion runs.
pub proof fn lemma_to_row_deterministic(t1: TransactionView, t2: TransactionView)
    requires
        t1 == t2,
    ensures
        row_of(t1) == row_of(t2),
{
}

/// An empty description and an absent one are the same state.
pub proof fn lemma_empty_description_is_none(d: Seq<char>)
    requires
        d.len() == 0,
    ensures
        normalize_desc(Some(d)) == normalize_desc(None),
{
}

impl Transaction {
    /// Whether this value satisfies the transaction invariant.
    pub open spec fn wf(self) -> bool {
        self@.wf()
    }

    /// Build a transaction: the identifier is generated here, exactly once,
    /// and an empty description is normalized to "no description".
    pub fn new(
        amount: Amount,
        payee: String,
        timestamp: Option<Timestamp>,
        description: Option<String>,
    ) -> (t: Transaction)
        requires
            amount.wf(),
            payee@.len() > 0,
            timestamp matches Some(ts) ==> ts.wf(),
        ensures
            t.wf(),
            t@.amount == amount,
            t@.payee == payee@,
            t@.timestamp == timestamp,
            t@.description == normalize_desc(
                match description {
                    Some(d) => Some(d@),
                    None => None,
                },
            ),
    {
        let description = match description {
            Some(d) => {
                if d.as_str().unicode_len() == 0 {
                    None
                } else {
                    Some(d)
                }
            },
            None => None,
        };
        Transaction { id: fresh_id(), amount, payee, description, timestamp }
    }

    /// Convert to the storable row form; this never fails.
    pub fn to_row(&self) -> (row: StorageRow)
        requires
            self.wf(),
        ensures
            row@ == row_of(self@),
    {
        let row = StorageRow {
            id: encode_id(self.id),
            amount: encode_amount(&self.amount),
            description: match &self.description {
                Some(d) => Some(d.clone()),
                None => None,
            },
            payee: self.payee.clone(),
            timestamp: match &self.timestamp {
                Some(t) => Some(encode_ts(t)),
                None => None,
            },
        };
        proof {
            assert(row@ =~= row_of(self@));
        }
        row
    }

    /// Convert a stored row back, blaming the first field that fails.
    pub fn from_row(row: StorageRow) -> (r: Result<Transaction, MalformedRow>)
        ensures
            match r {
                Ok(t) => parse_row_chars(row@) == Ok::<TransactionView, RowField>(t@) && t.wf(),
                Err(e) => parse_row_chars(row@) == Err::<TransactionView, RowField>(e.field),
            },
    {
        let id = match parse_id(row.id.as_str()) {
            Some(v) => v,
            None => {
                return Err(MalformedRow { field: RowField::Id });
            },
        };
        let amount = match parse_amount(row.amount.as_str()) {
            Some(v) => v,
            None => {
                return Err(MalformedRow { field: RowField::Amount });
            },
        };
        let timestamp = match &row.timestamp {
            Some(sv) => match parse_ts(sv.as_str()) {
                Some(ts) => Some(ts),
                None => {
                    return Err(MalformedRow { field: RowField::Timestamp });
                },
            },
            None => None,
        };
        if row.payee.as_str().unicode_len() == 0 {
            return Err(MalformedRow { field: RowField::Payee });
        }
        let description = match row.description {
            Some(d) => {
                if d.as_str().unicode_len() == 0 {
                    None
                } else {
                    Some(d)
                }
            },
            None => None,
        };
        let t = Transaction { id, amount, payee: row.payee, description, timestamp };
        proof {
            lemma_parsed_row_wf(row@);
            assert(parse_row_chars(row@)->Ok_0 =~= t@);
        }
        Ok(t)
    }
}

} // verus!
