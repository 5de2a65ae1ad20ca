use vstd::prelude::*;
use vstd::string::StrSliceExecFns;

verus! {

/// ASCII lower-casing of one character; every other character is unchanged.
pub open spec fn lower_char(c: char) -> char {
    if 65 <= c as u32 <= 90 {
        (((c as u32) + 32) as u8) as char
    } else {
        c
    }
}

/// ASCII lower-casing of a character sequence.
pub open spec fn lower_ascii(s: Seq<char>) -> Seq<char> {
    Seq::new(s.len(), |i: int| lower_char(s[i]))
}

/// The instruction kind a name denotes, compared without regard to ASCII
/// case. `Terminate` is an internal signal and has no external name.
pub open spec fn type_of_name(s: Seq<char>) -> Option<TransactionType> {
    let l = lower_ascii(s);
    if l == "deposit"@ {
        Some(TransactionType::Deposit)
    } else if l == "withdrawal"@ {
        Some(TransactionType::Withdrawal)
    } else if l == "dispute"@ {
        Some(TransactionType::Dispute)
    } else if l == "resolve"@ {
        Some(TransactionType::Resolve)
    } else if l == "chargeback"@ {
        Some(TransactionType::Chargeback)
    } else {
        None
    }
}

/// A monetary value: a fixed-point decimal with four fractional digits,
/// stored as an unsigned count of ten-thousandths of a currency unit.
/// Balances can never go negative, so an unsigned count suffices.
pub type Amount = u64;

/// Number of `Amount` units in one whole currency unit.
pub const AMOUNT_SCALE: u64 = 10000;

/// Command-line arguments: the path of the input file.
#[derive(Debug, Clone)]
pub struct Args {
    pub input_file: String,
}

/// The kinds of instruction the engine consumes. `Terminate` is the explicit
/// end-of-stream signal; the other five mutate account or record state.
#[derive(Debug, Clone, Copy, PartialEq, Eq, Structural)]
pub enum TransactionType {
    Terminate,
    Deposit,
    Withdrawal,
    Dispute,
    Resolve,
    Chargeback,
}

fn lower_char_exec(c: char) -> (r: char)
    ensures
        r == lower_char(c),
{
    let u = c as u32;
    if 65 <= u && u <= 90 {
        ((u + 32) as u8) as char
    } else {
        c
    }
}

fn chars_eq(v: &Vec<char>, lit: &str) -> (r: bool)
    ensures
        r == (v@ == lit@),
{
    let n = lit.unicode_len();
    if v.len() != n {
        return false;
    }
    let mut i: usize = 0;
    while i < n
        invariant
            0 <= i <= n,
            n == lit@.len(),
            v@.len() == n,
            forall|j: int| 0 <= j < i ==> v@[j] == lit@[j],
        decreases n - i,
    {
        if v[i] != lit.get_char(i) {
            return false;
        }
        i = i + 1;
    }
    proof {
        assert(v@ =~= lit@);
    }
    true
}

impl TransactionType {
    /// Parses an instruction name as the stream decoder hands it over,
    /// without regard to ASCII case; an unrecognized name comes back
    /// unchanged as the error.
    pub fn from_str(s: &str) -> (r: Result<TransactionType, String>)
        ensures
            r is Ok <==> type_of_name(s@) is Some,
            r is Ok ==> r->Ok_0 == type_of_name(s@)->Some_0,
            r is Err ==> r->Err_0@ == s@,
    {
        let n = s.unicode_len();
        let mut low: Vec<char> = Vec::new();
        proof {
            assert(lower_ascii(s@).take(0) =~= low@);
        }
        let mut i: usize = 0;
        while i < n
            invariant
                0 <= i <= n,
                n == s@.len(),
                low@ == lower_ascii(s@).take(i as int),
            decreases n - i,
        {
            let c = s.get_char(i);
            low.push(lower_char_exec(c));
            proof {
                assert(lower_ascii(s@).take(i as int + 1) =~= lower_ascii(s@).take(
                    i as int,
                ).push(lower_char(s@[i as int])));
            }
            i = i + 1;
        }
        proof {
            assert(lower_ascii(s@).take(n as int) =~= lower_ascii(s@));
        }
        if chars_eq(&low, "deposit") {
            Ok(TransactionType::Deposit)
        } else if chars_eq(&low, "withdrawal") {
            Ok(TransactionType::Withdrawal)
        } else if chars_eq(&low, "dispute") {
            Ok(TransactionType::Dispute)
        } else if chars_eq(&low, "resolve") {
            Ok(TransactionType::Resolve)
        } else if chars_eq(&low, "chargeback") {
            Ok(TransactionType::Chargeback)
        } else {
            Err(s.to_owned())
        }
    }
}

/// The financial state of one client account.
#[derive(Debug, Clone, Copy, PartialEq, Eq, Structural)]
pub struct ClientAccount {
    /// Funds usable for withdrawals and new disputes.
    pub available: Amount,
    /// Funds frozen by open disputes.
    pub held: Amount,
    /// Maintained in lockstep; always equals `available + held`.
    pub total: Amount,
    /// Once true, the account rejects every further instruction.
    pub locked: bool,
}

impl ClientAccount {
    /// The per-account balance invariant: the explicit `total` field always
    /// equals the sum of the other two balances.
    pub open spec fn balanced(self) -> bool {
        self.total == self.available + self.held
    }
}

impl Default for ClientAccount {
    /// A freshly referenced account: all balances zero, not locked.
    fn default() -> (r: ClientAccount)
        ensures
            r.available == 0,
            r.held == 0,
            r.total == 0,
            !r.locked,
    {
        ClientAccount { available: 0, held: 0, total: 0, locked: false }
    }
}

/// One instruction addressed to the engine: a kind tag, the client it
/// concerns, a transaction identifier, and an amount where the kind calls
/// for one (deposits and withdrawals).
#[derive(Debug, Clone, Copy, PartialEq, Eq)]
pub struct TransactionMessage {
    pub tx_type: TransactionType,
    pub client: u16,
    pub tx: u32,
    pub amount: Option<Amount>,
}

/// The stored record of a deposit or withdrawal, kept so that later
/// disputes can refer back to it. After creation only `disputed` changes.
#[derive(Debug, Clone, Copy, PartialEq, Eq, Structural)]
pub struct TransactionRecord {
    /// The client that originated the transaction; disputes must match it.
    pub client_id: u16,
    /// The amount recorded at creation time; never overwritten.
    pub amount: Amount,
    /// True while a dispute on this record is open.
    pub disputed: bool,
    /// The operation that created the record; only deposits are valid
    /// dispute targets.
    pub tx_type: TransactionType,
}

/// Why an instruction was dropped. Every rejection leaves all state
/// unchanged; the caller's policy is to log it and continue.
#[derive(Debug, Clone, Copy, PartialEq, Eq, Structural)]
pub enum TransactionError {
    /// A dispute, resolve or chargeback named a transaction id with no record.
    UnknownTransaction,
    /// The referenced record belongs to a different client.
    OwnershipMismatch,
    /// A dispute on an already-disputed or non-deposit record, or a resolve
    /// or chargeback on a record that is not disputed.
    InvalidDisputeState,
    /// A withdrawal or dispute would drive `available` negative, or a
    /// resolve or chargeback would drive `held` negative.
    InsufficientFunds,
    /// Any instruction against a locked account.
    AccountLocked,
    /// A deposit or withdrawal without the required amount.
    MalformedInstruction,
    /// A deposit or withdrawal reusing a transaction id that already has a
    /// record; records are immutable once created.
    DuplicateTransaction,
    /// A deposit that would push the account's total past the largest
    /// representable amount.
    BalanceOverflow,
}

/// A snapshot row of one account, as handed to the report emitter.
#[derive(Debug, Clone, Copy, PartialEq, Eq, Structural)]
pub struct AccountSummary {
    pub client: u16,
    pub available: Amount,
    pub held: Amount,
    pub total: Amount,
    pub locked: bool,
}

} // verus!
