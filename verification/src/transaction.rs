//! One transaction record: its kind, client, transaction id and optional
//! amount, with verified parsing from raw text fields.

use vstd::prelude::*;

use crate::amount::amount_of_text;
use crate::amount::Amount;
use crate::digits::all_digits;
use crate::digits::digits_val;
use crate::digits::parse_u16;
use crate::digits::parse_u32;
use crate::error::Error;

verus! {

/// The five kinds of transaction record.
#[derive(Clone, Copy, Debug, PartialEq, Eq, Structural)]
pub enum Kind {
    Deposit,
    Withdrawal,
    Dispute,
    Resolve,
    Chargeback,
}

/// A single transaction record: a kind, the client it concerns, its
/// transaction id, and an amount for deposits and withdrawals.
#[derive(Clone, Copy, Debug)]
pub struct Transaction {
    pub kind: Kind,
    pub client: u16,
    pub tx: u32,
    pub amount: Option<Amount>,
}

/// `b` with an ASCII capital letter folded to its small form.
pub open spec fn lower_byte(b: u8) -> u8 {
    if 65 <= b && b <= 90 {
        (b + 32) as u8
    } else {
        b
    }
}

/// `s` with every ASCII capital letter folded to its small form.
pub open spec fn lower_bytes(s: Seq<u8>) -> Seq<u8> {
    s.map_values(|b: u8| lower_byte(b))
}

/// The ASCII bytes of `deposit`.
pub open spec fn deposit_text() -> Seq<u8> {
    seq![100u8, 101, 112, 111, 115, 105, 116]
}

/// The ASCII bytes of `withdrawal`.
pub open spec fn withdrawal_text() -> Seq<u8> {
    seq![119u8, 105, 116, 104, 100, 114, 97, 119, 97, 108]
}

/// The ASCII bytes of `dispute`.
pub open spec fn dispute_text() -> Seq<u8> {
    seq![100u8, 105, 115, 112, 117, 116, 101]
}

/// The ASCII bytes of `resolve`.
pub open spec fn resolve_text() -> Seq<u8> {
    seq![114u8, 101, 115, 111, 108, 118, 101]
}

/// The ASCII bytes of `chargeback`.
pub open spec fn chargeback_text() -> Seq<u8> {
    seq![99u8, 104, 97, 114, 103, 101, 98, 97, 99, 107]
}

/// The kind a text names, compared without regard to ASCII case.
pub open spec fn kind_of_text(s: Seq<u8>) -> Option<Kind> {
    let l = lower_bytes(s);
    if l == deposit_text() {
        Option::Some(Kind::Deposit)
    } else if l == withdrawal_text() {
        Option::Some(Kind::Withdrawal)
    } else if l == dispute_text() {
        Option::Some(Kind::Dispute)
    } else if l == resolve_text() {
        Option::Some(Kind::Resolve)
    } else if l == chargeback_text() {
        Option::Some(Kind::Chargeback)
    } else {
        Option::None
    }
}

/// `s` with every ASCII capital letter folded, as owned bytes.
fn lower_vec(s: &[u8]) -> (r: Vec<u8>)
    ensures
        r@ == lower_bytes(s@),
{
    let mut v: Vec<u8> = Vec::new();
    let mut i: usize = 0;
    while i < s.len()
        invariant
            0 <= i <= s@.len(),
            v@.len() == i,
            forall|j: int| 0 <= j < i ==> v@[j] == lower_byte(#[trigger] s@[j]),
        decreases s@.len() - i,
    {
        let b = s[i];
        if 65 <= b && b <= 90 {
            v.push(b + 32);
        } else {
            v.push(b);
        }
        i = i + 1;
    }
    proof {
        assert(v@ =~= lower_bytes(s@));
    }
    v
}

/// Whether two byte strings hold the same bytes.
fn bytes_eq(a: &Vec<u8>, b: &Vec<u8>) -> (r: bool)
    ensures
        r == (a@ == b@),
{
    if a.len() != b.len() {
        return false;
    }
    let mut i: usize = 0;
    while i < a.len()
        invariant
            a@.len() == b@.len(),
            0 <= i <= a@.len(),
            forall|j: int| 0 <= j < i ==> a@[j] == b@[j],
        decreases a@.len() - i,
    {
        if a[i] != b[i] {
            return false;
        }
        i = i + 1;
    }
    proof {
        assert(a@ =~= b@);
    }
    true
}

impl Kind {
    /// Parse the name of a transaction kind, without regard to ASCII case.
    pub fn parse(s: &[u8]) -> (r: Option<Kind>)
        ensures
            r == kind_of_text(s@),
    {
        let l = lower_vec(s);
        let deposit: Vec<u8> = vec![100u8, 101, 112, 111, 115, 105, 116];
        let withdrawal: Vec<u8> = vec![119u8, 105, 116, 104, 100, 114, 97, 119, 97, 108];
        let dispute: Vec<u8> = vec![100u8, 105, 115, 112, 117, 116, 101];
        let resolve: Vec<u8> = vec![114u8, 101, 115, 111, 108, 118, 101];
        let chargeback: Vec<u8> = vec![99u8, 104, 97, 114, 103, 101, 98, 97, 99, 107];
        proof {
            assert(deposit@ =~= deposit_text());
            assert(withdrawal@ =~= withdrawal_text());
            assert(dispute@ =~= dispute_text());
            assert(resolve@ =~= resolve_text());
            assert(chargeback@ =~= chargeback_text());
        }
        if bytes_eq(&l, &deposit) {
            Some(Kind::Deposit)
        } else if bytes_eq(&l, &withdrawal) {
            Some(Kind::Withdrawal)
        } else if bytes_eq(&l, &dispute) {
            Some(Kind::Dispute)
        } else if bytes_eq(&l, &resolve) {
            Some(Kind::Resolve)
        } else if bytes_eq(&l, &chargeback) {
            Some(Kind::Chargeback)
        } else {
            None
        }
    }
}

/// Whether a text field holds a client id: digits denoting an unsigned
/// 16-bit integer.
pub open spec fn valid_client(s: Seq<u8>) -> bool {
    s.len() > 0 && all_digits(s) && digits_val(s) <= u16::MAX
}

/// Whether a text field holds a transaction id: digits denoting an
/// unsigned 32-bit integer.
pub open spec fn valid_tx(s: Seq<u8>) -> bool {
    s.len() > 0 && all_digits(s) && digits_val(s) <= u32::MAX
}

/// Whether a text field holds an amount: empty (no amount), or a decimal
/// whose scaled value is representable.
pub open spec fn valid_amount_field(s: Seq<u8>) -> bool {
    s.len() == 0 || (amount_of_text(s) matches Some(v) && v <= u64::MAX)
}

/// Whether a row of text fields forms a structurally valid record: three
/// or four fields holding kind, client, tx, and optionally an amount.
pub open spec fn record_wf(fs: Seq<Seq<u8>>) -> bool {
    &&& 3 <= fs.len() <= 4
    &&& kind_of_text(fs[0]) is Some
    &&& valid_client(fs[1])
    &&& valid_tx(fs[2])
    &&& (fs.len() == 3 || valid_amount_field(fs[3]))
}

/// The record a structurally valid row of fields denotes.
pub open spec fn spec_record(fs: Seq<Seq<u8>>) -> Transaction
    recommends
        record_wf(fs),
{
    Transaction {
        kind: kind_of_text(fs[0])->0,
        client: digits_val(fs[1]) as u16,
        tx: digits_val(fs[2]) as u32,
        amount: if fs.len() == 3 || fs[3].len() == 0 {
            Option::None
        } else {
            Option::Some(Amount(amount_of_text(fs[3])->0 as u64))
        },
    }
}

/// The reason reported for a row that is not a structurally valid record,
/// going by the first field that fails.
pub open spec fn parse_failure(fs: Seq<Seq<u8>>) -> Seq<char>
    recommends
        !record_wf(fs),
{
    if !(3 <= fs.len() <= 4) {
        "record does not have 3 or 4 fields"@
    } else if kind_of_text(fs[0]) is None {
        "unknown transaction kind"@
    } else if !valid_client(fs[1]) {
        "client is not an unsigned 16-bit integer"@
    } else if !valid_tx(fs[2]) {
        "tx is not an unsigned 32-bit integer"@
    } else {
        "amount is not a representable decimal"@
    }
}

impl Transaction {
    /// A record built from its parts.
    pub fn new(kind: Kind, client: u16, tx: u32, amount: Option<Amount>) -> (r: Transaction)
        ensures
            r == (Transaction { kind, client, tx, amount }),
    {
        Transaction { kind, client, tx, amount }
    }

    pub fn kind(&self) -> (r: Kind)
        ensures
            r == self.kind,
    {
        self.kind
    }

    pub fn client(&self) -> (r: u16)
        ensures
            r == self.client,
    {
        self.client
    }

    pub fn id(&self) -> (r: u32)
        ensures
            r == self.tx,
    {
        self.tx
    }

    pub fn amount(&self) -> (r: Option<Amount>)
        ensures
            r == self.amount,
    {
        self.amount
    }

    /// Parse one row of text fields into a record. Fails exactly when the
    /// row is not structurally valid, naming the first field that fails.
    pub fn from_fields(fields: &Vec<Vec<u8>>) -> (r: Result<Transaction, Error>)
        ensures
            ({
                let fs = fields@.map_values(|f: Vec<u8>| f@);
                match r {
                    Ok(t) => record_wf(fs) && t == spec_record(fs),
                    Err(e) => !record_wf(fs) && e.reason@ == parse_failure(fs) && e.cause is None,
                }
            }),
    {
        let ghost fs = fields@.map_values(|f: Vec<u8>| f@);
        if !(fields.len() == 3 || fields.len() == 4) {
            return Err(Error::new("record does not have 3 or 4 fields".to_owned()));
        }
        let kind = match Kind::parse(fields[0].as_slice()) {
            Some(k) => k,
            None => {
                return Err(Error::new("unknown transaction kind".to_owned()));
            },
        };
        let client = match parse_u16(fields[1].as_slice()) {
            Some(c) => c,
            None => {
                return Err(Error::new("client is not an unsigned 16-bit integer".to_owned()));
            },
        };
        let tx = match parse_u32(fields[2].as_slice()) {
            Some(t) => t,
            None => {
                return Err(Error::new("tx is not an unsigned 32-bit integer".to_owned()));
            },
        };
        let amount = if fields.len() == 3 || fields[3].len() == 0 {
            None
        } else {
            match Amount::from_decimal(fields[3].as_slice()) {
                Some(a) => Some(a),
                None => {
                    return Err(Error::new("amount is not a representable decimal".to_owned()));
                },
            }
        };
        Ok(Transaction { kind, client, tx, amount })
    }
}

} // verus!
