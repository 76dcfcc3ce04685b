//! Transaction event types.
//!
//! An input row is first read into a [`RawTransaction`] and then converted
//! into a [`Transaction`]. The row's `type` column is parsed with
//! [`TransactionKind::parse`], which ignores ASCII case.
use crate::amount::Amount;
use crate::engine::error::EngineError;
use vstd::prelude::*;
use vstd::string::StringSliceAdditionalSpecFns;

verus! {

/// Strongly typed `type` column.
#[derive(Debug, Clone, Copy, PartialEq, Eq, Structural)]
pub enum TransactionKind {
    Deposit,
    Withdrawal,
    Dispute,
    Resolve,
    Chargeback,
}

/// ASCII lowercase of a byte; other bytes are unchanged.
pub open spec fn ascii_lower(b: u8) -> u8 {
    if 65 <= b <= 90 {
        (b + 32) as u8
    } else {
        b
    }
}

/// Two byte strings are equal when ASCII letters are compared without case.
pub open spec fn eq_ignore_ascii_case(a: Seq<u8>, b: Seq<u8>) -> bool {
    &&& a.len() == b.len()
    &&& forall|i: int| 0 <= i < a.len() ==> ascii_lower(#[trigger] a[i]) == ascii_lower(b[i])
}

pub open spec fn deposit_word() -> Seq<u8> {
    seq![100u8, 101, 112, 111, 115, 105, 116]
}

pub open spec fn withdrawal_word() -> Seq<u8> {
    seq![119u8, 105, 116, 104, 100, 114, 97, 119, 97, 108]
}

pub open spec fn dispute_word() -> Seq<u8> {
    seq![100u8, 105, 115, 112, 117, 116, 101]
}

pub open spec fn resolve_word() -> Seq<u8> {
    seq![114u8, 101, 115, 111, 108, 118, 101]
}

pub open spec fn chargeback_word() -> Seq<u8> {
    seq![99u8, 104, 97, 114, 103, 101, 98, 97, 99, 107]
}

/// The kind named by the UTF-8 bytes of a `type` column, if any.
pub open spec fn kind_of_text(text: Seq<u8>) -> Option<TransactionKind> {
    if eq_ignore_ascii_case(text, deposit_word()) {
        Some(TransactionKind::Deposit)
    } else if eq_ignore_ascii_case(text, withdrawal_word()) {
        Some(TransactionKind::Withdrawal)
    } else if eq_ignore_ascii_case(text, dispute_word()) {
        Some(TransactionKind::Dispute)
    } else if eq_ignore_ascii_case(text, resolve_word()) {
        Some(TransactionKind::Resolve)
    } else if eq_ignore_ascii_case(text, chargeback_word()) {
        Some(TransactionKind::Chargeback)
    } else {
        None
    }
}

/// ASCII uppercase of a byte: `a..=z` become `A..=Z`; other bytes are
/// unchanged.
pub open spec fn ascii_upper(b: u8) -> u8 {
    if 97 <= b <= 122 {
        (b - 32) as u8
    } else {
        b
    }
}

/// The text with every ASCII letter in capitals.
pub open spec fn upper_text(text: Seq<u8>) -> Seq<u8> {
    text.map_values(|b: u8| ascii_upper(b))
}

/// Capitalising a byte does not change what it is compared as.
proof fn lemma_lower_of_upper(b: u8)
    ensures
        ascii_lower(ascii_upper(b)) == ascii_lower(b),
{
}

/// Comparing without case gives the same answer for the capitalised text.
proof fn lemma_eq_ignore_case_upper(text: Seq<u8>, word: Seq<u8>)
    ensures
        eq_ignore_ascii_case(upper_text(text), word) == eq_ignore_ascii_case(text, word),
{
    let u = upper_text(text);
    assert forall|i: int| 0 <= i < text.len() implies ascii_lower(#[trigger] u[i]) == ascii_lower(
        text[i],
    ) by {
        lemma_lower_of_upper(text[i]);
    }
    if eq_ignore_ascii_case(text, word) {
        assert forall|i: int| 0 <= i < u.len() implies ascii_lower(#[trigger] u[i]) == ascii_lower(
            word[i],
        ) by {
            assert(ascii_lower(text[i]) == ascii_lower(word[i]));
        }
    }
    if eq_ignore_ascii_case(u, word) {
        assert forall|i: int| 0 <= i < text.len() implies ascii_lower(#[trigger] text[i])
            == ascii_lower(word[i]) by {
            assert(ascii_lower(u[i]) == ascii_lower(word[i]));
        }
    }
}

/// The `type` column is read without regard to letter case: a text and the
/// same text in capitals name the same kind (or both none).
pub proof fn law_kind_ignores_letter_case(text: Seq<u8>)
    ensures
        kind_of_text(upper_text(text)) == kind_of_text(text),
{
    lemma_eq_ignore_case_upper(text, deposit_word());
    lemma_eq_ignore_case_upper(text, withdrawal_word());
    lemma_eq_ignore_case_upper(text, dispute_word());
    lemma_eq_ignore_case_upper(text, resolve_word());
    lemma_eq_ignore_case_upper(text, chargeback_word());
}

/// Each keyword names its kind, in lower case and in capitals alike.
pub proof fn law_keywords_name_their_kinds()
    ensures
        kind_of_text(deposit_word()) == Some(TransactionKind::Deposit),
        kind_of_text(withdrawal_word()) == Some(TransactionKind::Withdrawal),
        kind_of_text(dispute_word()) == Some(TransactionKind::Dispute),
        kind_of_text(resolve_word()) == Some(TransactionKind::Resolve),
        kind_of_text(chargeback_word()) == Some(TransactionKind::Chargeback),
        kind_of_text(upper_text(deposit_word())) == Some(TransactionKind::Deposit),
        kind_of_text(upper_text(withdrawal_word())) == Some(TransactionKind::Withdrawal),
        kind_of_text(upper_text(dispute_word())) == Some(TransactionKind::Dispute),
        kind_of_text(upper_text(resolve_word())) == Some(TransactionKind::Resolve),
        kind_of_text(upper_text(chargeback_word())) == Some(TransactionKind::Chargeback),
{
    assert(!eq_ignore_ascii_case(withdrawal_word(), deposit_word()));
    assert(!eq_ignore_ascii_case(dispute_word(), deposit_word())) by {
        assert(ascii_lower(dispute_word()[1]) != ascii_lower(deposit_word()[1]));
    }
    assert(!eq_ignore_ascii_case(resolve_word(), deposit_word())) by {
        assert(ascii_lower(resolve_word()[0]) != ascii_lower(deposit_word()[0]));
    }
    assert(!eq_ignore_ascii_case(resolve_word(), dispute_word())) by {
        assert(ascii_lower(resolve_word()[0]) != ascii_lower(dispute_word()[0]));
    }
    assert(!eq_ignore_ascii_case(chargeback_word(), withdrawal_word())) by {
        assert(ascii_lower(chargeback_word()[0]) != ascii_lower(withdrawal_word()[0]));
    }
    assert(!eq_ignore_ascii_case(chargeback_word(), deposit_word()));
    assert(!eq_ignore_ascii_case(chargeback_word(), dispute_word()));
    assert(!eq_ignore_ascii_case(chargeback_word(), resolve_word()));
    assert(!eq_ignore_ascii_case(resolve_word(), withdrawal_word()));
    assert(!eq_ignore_ascii_case(dispute_word(), withdrawal_word()));
    assert(eq_ignore_ascii_case(deposit_word(), deposit_word()));
    assert(eq_ignore_ascii_case(withdrawal_word(), withdrawal_word()));
    assert(eq_ignore_ascii_case(dispute_word(), dispute_word()));
    assert(eq_ignore_ascii_case(resolve_word(), resolve_word()));
    assert(eq_ignore_ascii_case(chargeback_word(), chargeback_word()));
    law_kind_ignores_letter_case(deposit_word());
    law_kind_ignores_letter_case(withdrawal_word());
    law_kind_ignores_letter_case(dispute_word());
    law_kind_ignores_letter_case(resolve_word());
    law_kind_ignores_letter_case(chargeback_word());
}

fn lower_byte(b: u8) -> (r: u8)
    ensures
        r == ascii_lower(b),
{
    if 65 <= b && b <= 90 {
        b + 32
    } else {
        b
    }
}

fn bytes_eq_ignore_ascii_case(a: &[u8], b: &Vec<u8>) -> (r: bool)
    ensures
        r == eq_ignore_ascii_case(a@, b@),
{
    if a.len() != b.len() {
        return false;
    }
    let mut i: usize = 0;
    while i < a.len()
        invariant
            a@.len() == b@.len(),
            0 <= i <= a@.len(),
            forall|j: int| 0 <= j < i ==> ascii_lower(#[trigger] a@[j]) == ascii_lower(b@[j]),
        decreases a@.len() - i,
    {
        if lower_byte(a[i]) != lower_byte(b[i]) {
            return false;
        }
        i = i + 1;
    }
    true
}

impl TransactionKind {
    /// Parse the `type` column, ignoring ASCII case: `deposit`, `withdrawal`,
    /// `dispute`, `resolve` or `chargeback`. Any other text is refused.
    pub fn parse(text: &str) -> (r: Option<TransactionKind>)
        ensures
            r == kind_of_text(text.spec_bytes()),
    {
        let bytes = text.as_bytes();
        let deposit = vec![100u8, 101, 112, 111, 115, 105, 116];
        let withdrawal = vec![119u8, 105, 116, 104, 100, 114, 97, 119, 97, 108];
        let dispute = vec![100u8, 105, 115, 112, 117, 116, 101];
        let resolve = vec![114u8, 101, 115, 111, 108, 118, 101];
        let chargeback = vec![99u8, 104, 97, 114, 103, 101, 98, 97, 99, 107];
        assert(deposit@ == deposit_word());
        assert(withdrawal@ == withdrawal_word());
        assert(dispute@ == dispute_word());
        assert(resolve@ == resolve_word());
        assert(chargeback@ == chargeback_word());
        if bytes_eq_ignore_ascii_case(bytes, &deposit) {
            Some(TransactionKind::Deposit)
        } else if bytes_eq_ignore_ascii_case(bytes, &withdrawal) {
            Some(TransactionKind::Withdrawal)
        } else if bytes_eq_ignore_ascii_case(bytes, &dispute) {
            Some(TransactionKind::Dispute)
        } else if bytes_eq_ignore_ascii_case(bytes, &resolve) {
            Some(TransactionKind::Resolve)
        } else if bytes_eq_ignore_ascii_case(bytes, &chargeback) {
            Some(TransactionKind::Chargeback)
        } else {
            None
        }
    }
}

/// Strongly typed transaction handed to the engine.
#[derive(Debug, Clone, Copy, PartialEq, Eq)]
pub enum Transaction {
    /// Credit `amount` to the client's `available` and `total`.
    Deposit { client: u16, tx: u32, amount: Amount },
    /// Debit `amount` from the client's `available` and `total`.
    Withdrawal { client: u16, tx: u32, amount: Amount },
    /// Open a dispute against an earlier deposit.
    Dispute { client: u16, tx: u32 },
    /// Close a dispute, releasing the held funds.
    Resolve { client: u16, tx: u32 },
    /// Reverse a disputed deposit and lock the account.
    Chargeback { client: u16, tx: u32 },
}

/// The client a transaction names.
pub open spec fn client_of(t: Transaction) -> u16 {
    match t {
        Transaction::Deposit { client, .. } => client,
        Transaction::Withdrawal { client, .. } => client,
        Transaction::Dispute { client, .. } => client,
        Transaction::Resolve { client, .. } => client,
        Transaction::Chargeback { client, .. } => client,
    }
}

/// The tx id a transaction carries.
pub open spec fn tx_of(t: Transaction) -> u32 {
    match t {
        Transaction::Deposit { tx, .. } => tx,
        Transaction::Withdrawal { tx, .. } => tx,
        Transaction::Dispute { tx, .. } => tx,
        Transaction::Resolve { tx, .. } => tx,
        Transaction::Chargeback { tx, .. } => tx,
    }
}

/// An input row before validation.
#[derive(Debug, Clone, Copy)]
pub struct RawTransaction {
    /// The `type` column.
    pub kind: TransactionKind,
    /// Client id.
    pub client: u16,
    /// Globally unique tx id.
    pub tx: u32,
    /// Amount, required for deposits and withdrawals, absent otherwise.
    pub amount: Option<Amount>,
}

/// The transaction a raw row denotes: deposits and withdrawals need an amount.
pub open spec fn transaction_of(raw: RawTransaction) -> Result<Transaction, EngineError> {
    let RawTransaction { kind, client, tx, amount } = raw;
    match kind {
        TransactionKind::Deposit => match amount {
            Some(amount) => Ok(Transaction::Deposit { client, tx, amount }),
            None => Err(EngineError::MissingAmount { tx }),
        },
        TransactionKind::Withdrawal => match amount {
            Some(amount) => Ok(Transaction::Withdrawal { client, tx, amount }),
            None => Err(EngineError::MissingAmount { tx }),
        },
        TransactionKind::Dispute => Ok(Transaction::Dispute { client, tx }),
        TransactionKind::Resolve => Ok(Transaction::Resolve { client, tx }),
        TransactionKind::Chargeback => Ok(Transaction::Chargeback { client, tx }),
    }
}

impl Transaction {
    /// Validate a raw row. [`EngineError::MissingAmount`] is the only error.
    pub fn try_from(raw: RawTransaction) -> (r: Result<Transaction, EngineError>)
        ensures
            r == transaction_of(raw),
    {
        let RawTransaction { kind, client, tx, amount } = raw;
        match kind {
            TransactionKind::Deposit => match amount {
                Some(amount) => Ok(Transaction::Deposit { client, tx, amount }),
                None => Err(EngineError::MissingAmount { tx }),
            },
            TransactionKind::Withdrawal => match amount {
                Some(amount) => Ok(Transaction::Withdrawal { client, tx, amount }),
                None => Err(EngineError::MissingAmount { tx }),
            },
            TransactionKind::Dispute => Ok(Transaction::Dispute { client, tx }),
            TransactionKind::Resolve => Ok(Transaction::Resolve { client, tx }),
            TransactionKind::Chargeback => Ok(Transaction::Chargeback { client, tx }),
        }
    }
}

} // verus!
