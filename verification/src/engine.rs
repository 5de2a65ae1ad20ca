//! The transaction-application state machine: a mathematical transition
//! function `step` over ghost `EngineState`, the executable `Engine` that
//! implements it on the two concurrent stores, and the proved laws of the
//! machine (balance invariant, idempotence of settled records, ownership,
//! absorption of the locked state).

use vstd::prelude::*;
use dashmap::DashMap;
use crate::store;
use crate::structures::{ClientAccount, TransactionError, TransactionMessage, TransactionRecord, TransactionType};

verus! {

/// The ghost state of the engine: the contents of the account store and of
/// the transaction-record store.
pub struct EngineState {
    pub accounts: Map<u16, ClientAccount>,
    pub records: Map<u32, TransactionRecord>,
}

/// What one instruction does: the state it leads to and the outcome the
/// caller is handed (success, or the reason the instruction was dropped).
pub struct StepResult {
    pub state: EngineState,
    pub outcome: Result<(), TransactionError>,
}

impl EngineState {
    /// Well-formedness of a state: every account is balanced, and every
    /// record's owner has an account (records are only ever created while
    /// processing an instruction of their owner).
    pub open spec fn wf(self) -> bool {
        &&& forall|c: u16| #[trigger] self.accounts.contains_key(c) ==> self.accounts[c].balanced()
        &&& forall|t: u32| #[trigger] self.records.contains_key(t)
            ==> self.accounts.contains_key(self.records[t].client_id)
    }
}

/// The state before any instruction was processed: no accounts, no records.
pub open spec fn initial_state() -> EngineState {
    EngineState { accounts: Map::empty(), records: Map::empty() }
}

/// A lazily created account: all balances zero, not locked.
pub open spec fn fresh_account() -> ClientAccount {
    ClientAccount { available: 0, held: 0, total: 0, locked: false }
}

/// The account an instruction finds: the stored one, or a fresh one created
/// on first reference to the client.
pub open spec fn account_or_fresh(accounts: Map<u16, ClientAccount>, client: u16) -> ClientAccount {
    if accounts.contains_key(client) {
        accounts[client]
    } else {
        fresh_account()
    }
}

/// An instruction dropped with zero state mutation and a reason.
pub open spec fn rejected(s: EngineState, e: TransactionError) -> StepResult {
    StepResult { state: s, outcome: Err(e) }
}

/// A deposit: credits `available` and `total` and creates the record, unless
/// the amount is missing, the transaction id is already taken, or the total
/// would pass the largest representable amount.
pub open spec fn deposit_step(s: EngineState, acct: ClientAccount, msg: TransactionMessage) -> StepResult {
    match msg.amount {
        None => rejected(s, TransactionError::MalformedInstruction),
        Some(amount) => if s.records.contains_key(msg.tx) {
            rejected(s, TransactionError::DuplicateTransaction)
        } else if acct.total + amount > u64::MAX {
            rejected(s, TransactionError::BalanceOverflow)
        } else {
            let updated = ClientAccount {
                available: (acct.available + amount) as u64,
                held: acct.held,
                total: (acct.total + amount) as u64,
                locked: acct.locked,
            };
            let record = TransactionRecord {
                client_id: msg.client,
                amount,
                disputed: false,
                tx_type: TransactionType::Deposit,
            };
            StepResult {
                state: EngineState {
                    accounts: s.accounts.insert(msg.client, updated),
                    records: s.records.insert(msg.tx, record),
                },
                outcome: Ok(()),
            }
        },
    }
}

/// A withdrawal: debits `available` and `total` and creates the record,
/// unless the amount is missing, the transaction id is already taken, or
/// `available` does not cover the amount.
pub open spec fn withdrawal_step(s: EngineState, acct: ClientAccount, msg: TransactionMessage) -> StepResult {
    match msg.amount {
        None => rejected(s, TransactionError::MalformedInstruction),
        Some(amount) => if s.records.contains_key(msg.tx) {
            rejected(s, TransactionError::DuplicateTransaction)
        } else if acct.available < amount {
            rejected(s, TransactionError::InsufficientFunds)
        } else {
            let updated = ClientAccount {
                available: (acct.available - amount) as u64,
                held: acct.held,
                total: (acct.total - amount) as u64,
                locked: acct.locked,
            };
            let record = TransactionRecord {
                client_id: msg.client,
                amount,
                disputed: false,
                tx_type: TransactionType::Withdrawal,
            };
            StepResult {
                state: EngineState {
                    accounts: s.accounts.insert(msg.client, updated),
                    records: s.records.insert(msg.tx, record),
                },
                outcome: Ok(()),
            }
        },
    }
}

/// A dispute: moves the recorded amount from `available` to `held` and marks
/// the record disputed. Valid only against the client's own undisputed
/// deposit record, and only when `available` covers the recorded amount.
pub open spec fn dispute_step(s: EngineState, acct: ClientAccount, msg: TransactionMessage) -> StepResult {
    if !s.records.contains_key(msg.tx) {
        rejected(s, TransactionError::UnknownTransaction)
    } else {
        let rec = s.records[msg.tx];
        if rec.client_id != msg.client {
            rejected(s, TransactionError::OwnershipMismatch)
        } else if rec.disputed {
            rejected(s, TransactionError::InvalidDisputeState)
        } else if rec.tx_type != TransactionType::Deposit {
            rejected(s, TransactionError::InvalidDisputeState)
        } else if acct.available < rec.amount {
            rejected(s, TransactionError::InsufficientFunds)
        } else {
            let updated = ClientAccount {
                available: (acct.available - rec.amount) as u64,
                held: (acct.held + rec.amount) as u64,
                total: acct.total,
                locked: acct.locked,
            };
            let marked = TransactionRecord { disputed: true, ..rec };
            StepResult {
                state: EngineState {
                    accounts: s.accounts.insert(msg.client, updated),
                    records: s.records.insert(msg.tx, marked),
                },
                outcome: Ok(()),
            }
        }
    }
}

/// A resolve: releases the recorded amount from `held` back to `available`
/// and clears the dispute flag. Valid only against the client's own disputed
/// record, and only while `held` covers the recorded amount (always the
/// case in reachable states: held funds never go negative).
pub open spec fn resolve_step(s: EngineState, acct: ClientAccount, msg: TransactionMessage) -> StepResult {
    if !s.records.contains_key(msg.tx) {
        rejected(s, TransactionError::UnknownTransaction)
    } else {
        let rec = s.records[msg.tx];
        if rec.client_id != msg.client {
            rejected(s, TransactionError::OwnershipMismatch)
        } else if !rec.disputed {
            rejected(s, TransactionError::InvalidDisputeState)
        } else if acct.held < rec.amount {
            rejected(s, TransactionError::InsufficientFunds)
        } else {
            let updated = ClientAccount {
                available: (acct.available + rec.amount) as u64,
                held: (acct.held - rec.amount) as u64,
                total: acct.total,
                locked: acct.locked,
            };
            let cleared = TransactionRecord { disputed: false, ..rec };
            StepResult {
                state: EngineState {
                    accounts: s.accounts.insert(msg.client, updated),
                    records: s.records.insert(msg.tx, cleared),
                },
                outcome: Ok(()),
            }
        }
    }
}

/// A chargeback: removes the recorded amount from `held` and `total`, clears
/// the dispute flag (the dispute is terminally settled) and locks the
/// account for good. Valid only against the client's own disputed record,
/// and only while `held` covers the recorded amount.
pub open spec fn chargeback_step(s: EngineState, acct: ClientAccount, msg: TransactionMessage) -> StepResult {
    if !s.records.contains_key(msg.tx) {
        rejected(s, TransactionError::UnknownTransaction)
    } else {
        let rec = s.records[msg.tx];
        if rec.client_id != msg.client {
            rejected(s, TransactionError::OwnershipMismatch)
        } else if !rec.disputed {
            rejected(s, TransactionError::InvalidDisputeState)
        } else if acct.held < rec.amount {
            rejected(s, TransactionError::InsufficientFunds)
        } else {
            let updated = ClientAccount {
                available: acct.available,
                held: (acct.held - rec.amount) as u64,
                total: (acct.total - rec.amount) as u64,
                locked: true,
            };
            let cleared = TransactionRecord { disputed: false, ..rec };
            StepResult {
                state: EngineState {
                    accounts: s.accounts.insert(msg.client, updated),
                    records: s.records.insert(msg.tx, cleared),
                },
                outcome: Ok(()),
            }
        }
    }
}

/// The transition function of the engine: what one instruction does to the
/// two stores. `Terminate` changes nothing. Any other instruction first
/// creates the client's account on first reference; a locked account then
/// rejects it outright, and otherwise the instruction's own rules decide.
pub open spec fn step(s: EngineState, msg: TransactionMessage) -> StepResult {
    if msg.tx_type == TransactionType::Terminate {
        StepResult { state: s, outcome: Ok(()) }
    } else {
        let acct = account_or_fresh(s.accounts, msg.client);
        let s1 = EngineState { accounts: s.accounts.insert(msg.client, acct), records: s.records };
        if acct.locked {
            rejected(s1, TransactionError::AccountLocked)
        } else {
            match msg.tx_type {
                TransactionType::Deposit => deposit_step(s1, acct, msg),
                TransactionType::Withdrawal => withdrawal_step(s1, acct, msg),
                TransactionType::Dispute => dispute_step(s1, acct, msg),
                TransactionType::Resolve => resolve_step(s1, acct, msg),
                TransactionType::Chargeback => chargeback_step(s1, acct, msg),
                TransactionType::Terminate => StepResult { state: s, outcome: Ok(()) },
            }
        }
    }
}

/// The state after consuming a stream of instructions in order, stopping at
/// the first `Terminate`; rejected instructions contribute nothing.
pub open spec fn run(s: EngineState, msgs: Seq<TransactionMessage>) -> EngineState
    decreases msgs.len(),
{
    if msgs.len() == 0 {
        s
    } else if msgs[0].tx_type == TransactionType::Terminate {
        s
    } else {
        run(step(s, msgs[0]).state, msgs.skip(1))
    }
}

/// The engine: the account store and the transaction-record store, each a
/// concurrent map. The fields stay private so that every mutation goes
/// through the verified transition function and well-formedness is kept.
pub struct Engine {
    clients: DashMap<u16, ClientAccount>,
    records: DashMap<u32, TransactionRecord>,
}

impl View for Engine {
    type V = EngineState;

    closed spec fn view(&self) -> EngineState {
        EngineState {
            accounts: store::clients_map_of(self.clients),
            records: store::records_map_of(self.records),
        }
    }
}

impl Engine {
    /// Relies on `DashMap::new`: a map created with capacity 0 holds no
    /// entries, so a fresh engine is in the initial state.
    #[verifier::external_body]
    pub fn new() -> (r: Engine)
        ensures
            r@ == initial_state(),
    {
        Engine { clients: DashMap::new(), records: DashMap::new() }
    }

    /// Applies one instruction to the stores, atomically: either the full
    /// effect `step` gives it, or — when it is dropped — no mutation at all
    /// beyond the lazy creation of the addressed account, with the reason
    /// returned for the caller to log.
    pub fn apply_transaction(&mut self, msg: &TransactionMessage) -> (r: Result<(), TransactionError>)
        requires
            old(self)@.wf(),
        ensures
            final(self)@ == step(old(self)@, *msg).state,
            r == step(old(self)@, *msg).outcome,
            final(self)@.wf(),
            old(self)@.held_covers_disputes() ==> final(self)@.held_covers_disputes(),
    {
        proof {
            lemma_step_preserves_invariant(old(self)@, *msg);
            if old(self)@.held_covers_disputes() {
                lemma_step_preserves_held_accounting(old(self)@, *msg);
            }
        }
        if msg.tx_type == TransactionType::Terminate {
            return Ok(());
        }
        let account = match store::get_account(&self.clients, msg.client) {
            Some(a) => a,
            None => ClientAccount::default(),
        };
        store::insert_account(&mut self.clients, msg.client, account);
        if account.locked {
            return Err(TransactionError::AccountLocked);
        }
        match msg.tx_type {
            TransactionType::Deposit => {
                match msg.amount {
                    None => Err(TransactionError::MalformedInstruction),
                    Some(amount) => {
                        if store::get_record(&self.records, msg.tx).is_some() {
                            Err(TransactionError::DuplicateTransaction)
                        } else if account.total > u64::MAX - amount {
                            Err(TransactionError::BalanceOverflow)
                        } else {
                            let updated = ClientAccount {
                                available: account.available + amount,
                                held: account.held,
                                total: account.total + amount,
                                locked: account.locked,
                            };
                            let record = TransactionRecord {
                                client_id: msg.client,
                                amount,
                                disputed: false,
                                tx_type: TransactionType::Deposit,
                            };
                            store::insert_account(&mut self.clients, msg.client, updated);
                            store::insert_record(&mut self.records, msg.tx, record);
                            Ok(())
                        }
                    },
                }
            },
            TransactionType::Withdrawal => {
                match msg.amount {
                    None => Err(TransactionError::MalformedInstruction),
                    Some(amount) => {
                        if store::get_record(&self.records, msg.tx).is_some() {
                            Err(TransactionError::DuplicateTransaction)
                        } else if account.available < amount {
                            Err(TransactionError::InsufficientFunds)
                        } else {
                            let updated = ClientAccount {
                                available: account.available - amount,
                                held: account.held,
                                total: account.total - amount,
                                locked: account.locked,
                            };
                            let record = TransactionRecord {
                                client_id: msg.client,
                                amount,
                                disputed: false,
                                tx_type: TransactionType::Withdrawal,
                            };
                            store::insert_account(&mut self.clients, msg.client, updated);
                            store::insert_record(&mut self.records, msg.tx, record);
                            Ok(())
                        }
                    },
                }
            },
            TransactionType::Dispute => {
                match store::get_record(&self.records, msg.tx) {
                    None => Err(TransactionError::UnknownTransaction),
                    Some(rec) => {
                        if rec.client_id != msg.client {
                            Err(TransactionError::OwnershipMismatch)
                        } else if rec.disputed {
                            Err(TransactionError::InvalidDisputeState)
                        } else if rec.tx_type != TransactionType::Deposit {
                            Err(TransactionError::InvalidDisputeState)
                        } else if account.available < rec.amount {
                            Err(TransactionError::InsufficientFunds)
                        } else {
                            let updated = ClientAccount {
                                available: account.available - rec.amount,
                                held: account.held + rec.amount,
                                total: account.total,
                                locked: account.locked,
                            };
                            let marked = TransactionRecord { disputed: true, ..rec };
                            store::insert_account(&mut self.clients, msg.client, updated);
                            store::insert_record(&mut self.records, msg.tx, marked);
                            Ok(())
                        }
                    },
                }
            },
            TransactionType::Resolve => {
                match store::get_record(&self.records, msg.tx) {
                    None => Err(TransactionError::UnknownTransaction),
                    Some(rec) => {
                        if rec.client_id != msg.client {
                            Err(TransactionError::OwnershipMismatch)
                        } else if !rec.disputed {
                            Err(TransactionError::InvalidDisputeState)
                        } else if account.held < rec.amount {
                            Err(TransactionError::InsufficientFunds)
                        } else {
                            let updated = ClientAccount {
                                available: account.available + rec.amount,
                                held: account.held - rec.amount,
                                total: account.total,
                                locked: account.locked,
                            };
                            let cleared = TransactionRecord { disputed: false, ..rec };
                            store::insert_account(&mut self.clients, msg.client, updated);
                            store::insert_record(&mut self.records, msg.tx, cleared);
                            Ok(())
                        }
                    },
                }
            },
            TransactionType::Chargeback => {
                match store::get_record(&self.records, msg.tx) {
                    None => Err(TransactionError::UnknownTransaction),
                    Some(rec) => {
                        if rec.client_id != msg.client {
                            Err(TransactionError::OwnershipMismatch)
                        } else if !rec.disputed {
                            Err(TransactionError::InvalidDisputeState)
                        } else if account.held < rec.amount {
                            Err(TransactionError::InsufficientFunds)
                        } else {
                            let updated = ClientAccount {
                                available: account.available,
                                held: account.held - rec.amount,
                                total: account.total - rec.amount,
                                locked: true,
                            };
                            let cleared = TransactionRecord { disputed: false, ..rec };
                            store::insert_account(&mut self.clients, msg.client, updated);
                            store::insert_record(&mut self.records, msg.tx, cleared);
                            Ok(())
                        }
                    },
                }
            },
            TransactionType::Terminate => Ok(()),
        }
    }

    /// A copy of the account stored for the client, if one exists.
    pub fn get_account(&self, client: u16) -> (r: Option<ClientAccount>)
        ensures
            r == if self@.accounts.contains_key(client) {
                Some(self@.accounts[client])
            } else {
                None::<ClientAccount>
            },
    {
        store::get_account(&self.clients, client)
    }

    /// A copy of the record stored for the transaction id, if one exists.
    pub fn get_record(&self, tx: u32) -> (r: Option<TransactionRecord>)
        ensures
            r == if self@.records.contains_key(tx) {
                Some(self@.records[tx])
            } else {
                None::<TransactionRecord>
            },
    {
        store::get_record(&self.records, tx)
    }
}

/// Consumes a stream of instructions in order and applies each to the
/// engine, halting cleanly at the first `Terminate` signal. Rejections are
/// silent no-ops here; processing never aborts on them.
pub fn process_transaction(engine: &mut Engine, msgs: &Vec<TransactionMessage>)
    requires
        old(engine)@.wf(),
    ensures
        final(engine)@ == run(old(engine)@, msgs@),
        final(engine)@.wf(),
        old(engine)@.held_covers_disputes() ==> final(engine)@.held_covers_disputes(),
{
    proof {
        assert(msgs@.skip(0) =~= msgs@);
    }
    let mut i: usize = 0;
    while i < msgs.len()
        invariant
            0 <= i <= msgs@.len(),
            engine@.wf(),
            run(old(engine)@, msgs@) == run(engine@, msgs@.skip(i as int)),
            old(engine)@.held_covers_disputes() ==> engine@.held_covers_disputes(),
        decreases msgs@.len() - i,
    {
        let msg = msgs[i];
        if msg.tx_type == TransactionType::Terminate {
            proof {
                assert(msgs@.skip(i as int)[0] == msgs@[i as int]);
                assert(run(engine@, msgs@.skip(i as int)) == engine@);
            }
            return;
        }
        proof {
            assert(msgs@.skip(i as int)[0] == msgs@[i as int]);
            assert(msgs@.skip(i as int).skip(1) =~= msgs@.skip(i as int + 1));
        }
        let _ = engine.apply_transaction(&msg);
        i = i + 1;
    }
    proof {
        assert(msgs@.skip(i as int) =~= Seq::<TransactionMessage>::empty());
    }
}

/// Law: the balance invariant is inductive. In every state where each
/// account is balanced and each record's owner has an account, any single
/// instruction leads again to such a state.
pub proof fn lemma_step_preserves_invariant(s: EngineState, msg: TransactionMessage)
    requires
        s.wf(),
    ensures
        step(s, msg).state.wf(),
{
}

/// Law: the state before any instruction is well formed.
pub proof fn lemma_initial_state_wf()
    ensures
        initial_state().wf(),
{
}

/// Law: every reachable state satisfies the balance invariant. Starting from
/// any well-formed state (in particular the initial one), after any stream
/// of instructions every account still holds `total == available + held`,
/// and — the balances being unsigned counts — none of the three components
/// is ever negative.
pub proof fn lemma_run_preserves_invariant(s: EngineState, msgs: Seq<TransactionMessage>)
    requires
        s.wf(),
    ensures
        run(s, msgs).wf(),
        forall|c: u16| #[trigger] run(s, msgs).accounts.contains_key(c)
            ==> run(s, msgs).accounts[c].available >= 0 && run(s, msgs).accounts[c].held >= 0
                && run(s, msgs).accounts[c].total >= 0,
    decreases msgs.len(),
{
    if msgs.len() == 0 {
    } else if msgs[0].tx_type == TransactionType::Terminate {
    } else {
        lemma_step_preserves_invariant(s, msgs[0]);
        lemma_run_preserves_invariant(step(s, msgs[0]).state, msgs.skip(1));
    }
}

/// Law: replaying a resolve or chargeback against a record that is no longer
/// disputed is a no-op: the instruction is dropped (as an invalid dispute
/// state, or outright if the chargeback has already locked the account) and
/// every account and every record stays exactly as it was.
pub proof fn lemma_settled_replay_is_noop(s: EngineState, msg: TransactionMessage)
    requires
        s.wf(),
        msg.tx_type == TransactionType::Resolve || msg.tx_type == TransactionType::Chargeback,
        s.records.contains_key(msg.tx),
        s.records[msg.tx].client_id == msg.client,
        !s.records[msg.tx].disputed,
    ensures
        step(s, msg).state == s,
        step(s, msg).outcome == Err::<(), TransactionError>(
            if s.accounts[msg.client].locked {
                TransactionError::AccountLocked
            } else {
                TransactionError::InvalidDisputeState
            },
        ),
{
    assert(s.accounts.contains_key(msg.client));
    assert(s.accounts.insert(msg.client, s.accounts[msg.client]) =~= s.accounts);
}

/// Law: ownership. A dispute, resolve or chargeback naming a record owned by
/// a different client is dropped and changes no account and no record. (The
/// one effect such an attempt can ever have is the lazy creation of the
/// instructing client's own empty account, so the law is stated for clients
/// that already have one.)
pub proof fn lemma_ownership_mismatch_is_noop(s: EngineState, msg: TransactionMessage)
    requires
        s.wf(),
        msg.tx_type == TransactionType::Dispute || msg.tx_type == TransactionType::Resolve
            || msg.tx_type == TransactionType::Chargeback,
        s.accounts.contains_key(msg.client),
        s.records.contains_key(msg.tx),
        s.records[msg.tx].client_id != msg.client,
    ensures
        step(s, msg).state == s,
        !s.accounts[msg.client].locked ==> step(s, msg).outcome == Err::<(),
        TransactionError>(TransactionError::OwnershipMismatch),
{
    assert(s.accounts.insert(msg.client, s.accounts[msg.client]) =~= s.accounts);
}

/// Law: locking is absorbing, for one instruction. Once an account is
/// locked, no instruction of any kind — addressed to it or to any other
/// client, valid or not — changes its funds or unlocks it.
pub proof fn lemma_locked_account_absorbing(s: EngineState, msg: TransactionMessage, client: u16)
    requires
        s.wf(),
        s.accounts.contains_key(client),
        s.accounts[client].locked,
    ensures
        step(s, msg).state.accounts.contains_key(client),
        step(s, msg).state.accounts[client] == s.accounts[client],
{
}

/// Law: locking is absorbing, for whole streams. A locked account shows the
/// same `available`, `held`, `total` and lock flag after any further stream
/// of instructions whatsoever.
pub proof fn lemma_locked_account_absorbing_run(s: EngineState, msgs: Seq<TransactionMessage>, client: u16)
    requires
        s.wf(),
        s.accounts.contains_key(client),
        s.accounts[client].locked,
    ensures
        run(s, msgs).accounts.contains_key(client),
        run(s, msgs).accounts[client] == s.accounts[client],
    decreases msgs.len(),
{
    if msgs.len() == 0 {
    } else if msgs[0].tx_type == TransactionType::Terminate {
    } else {
        lemma_step_preserves_invariant(s, msgs[0]);
        lemma_locked_account_absorbing(s, msgs[0], client);
        lemma_locked_account_absorbing_run(step(s, msgs[0]).state, msgs.skip(1), client);
    }
}

/// The ids of the client's currently disputed records, each paired with its
/// recorded amount. The id keeps the pairs distinct; the amount is what the
/// sum adds up.
pub open spec fn disputed_pairs(records: Map<u32, TransactionRecord>, client: u16) -> Set<
    (u32, u64),
> {
    Set::new(
        |p: (u32, u64)|
            records.contains_key(p.0) && records[p.0].client_id == client
                && records[p.0].disputed && p.1 == records[p.0].amount,
    )
}

/// The fold step for summing recorded amounts.
pub open spec fn sum_fn() -> spec_fn(int, (u32, u64)) -> int {
    |acc: int, p: (u32, u64)| acc + p.1
}

/// The sum of the amounts in a set of record-id/amount pairs.
pub open spec fn pair_sum(s: Set<(u32, u64)>) -> int {
    s.fold(0int, sum_fn())
}

impl EngineState {
    /// Dispute accounting: the record store is finite, and every account
    /// holds exactly the sum of the amounts of that client's disputed
    /// records in `held`.
    pub open spec fn held_covers_disputes(self) -> bool {
        &&& self.records.dom().finite()
        &&& forall|c: u16| #[trigger]
            self.accounts.contains_key(c) ==> self.accounts[c].held as int == pair_sum(
                disputed_pairs(self.records, c),
            )
    }
}

proof fn lemma_disputed_pairs_finite(records: Map<u32, TransactionRecord>, client: u16)
    requires
        records.dom().finite(),
    ensures
        disputed_pairs(records, client).finite(),
{
    let ids = records.dom().filter(
        |t: u32| records[t].client_id == client && records[t].disputed,
    );
    records.dom().lemma_len_filter(|t: u32| records[t].client_id == client && records[t].disputed);
    let to_pair = |t: u32| (t, records[t].amount);
    ids.lemma_map_finite(to_pair);
    assert forall|p: (u32, u64)| disputed_pairs(records, client).contains(p) implies ids.map(
        to_pair,
    ).contains(p) by {
        assert(ids.contains(p.0));
        assert(p == to_pair(p.0));
    };
    assert(disputed_pairs(records, client) =~= ids.map(to_pair));
}

proof fn lemma_pair_sum_insert(s: Set<(u32, u64)>, p: (u32, u64))
    requires
        s.finite(),
        !s.contains(p),
    ensures
        pair_sum(s.insert(p)) == pair_sum(s) + p.1,
{
    assert(vstd::set::fold::is_fun_commutative(sum_fn()));
    vstd::set::fold::lemma_fold_insert(s, 0int, sum_fn(), p);
}

proof fn lemma_pair_sum_remove(s: Set<(u32, u64)>, p: (u32, u64))
    requires
        s.finite(),
        s.contains(p),
    ensures
        pair_sum(s) == pair_sum(s.remove(p)) + p.1,
{
    assert(s.remove(p).insert(p) =~= s);
    lemma_pair_sum_insert(s.remove(p), p);
}

proof fn lemma_pair_sum_nonneg(s: Set<(u32, u64)>)
    requires
        s.finite(),
    ensures
        pair_sum(s) >= 0,
    decreases s.len(),
{
    if s.len() == 0 {
        assert(s =~= Set::<(u32, u64)>::empty());
        vstd::set::fold::lemma_fold_empty(0int, sum_fn());
    } else {
        let p = s.choose();
        assert(s.contains(p));
        lemma_pair_sum_remove(s, p);
        lemma_pair_sum_nonneg(s.remove(p));
    }
}

/// Law: the dispute accounting is inductive. In every state where each
/// client's `held` funds are exactly the sum of that client's disputed
/// record amounts, any single instruction leads again to such a state.
pub proof fn lemma_step_preserves_held_accounting(s: EngineState, msg: TransactionMessage)
    requires
        s.wf(),
        s.held_covers_disputes(),
    ensures
        step(s, msg).state.held_covers_disputes(),
{
    if msg.tx_type != TransactionType::Terminate {
        let acct = account_or_fresh(s.accounts, msg.client);
        let s1 = EngineState {
            accounts: s.accounts.insert(msg.client, acct),
            records: s.records,
        };
        if !s.accounts.contains_key(msg.client) {
            assert(disputed_pairs(s.records, msg.client) =~= Set::<(u32, u64)>::empty());
            vstd::set::fold::lemma_fold_empty(0int, sum_fn());
        }
        assert(s1.held_covers_disputes());
        let s2 = step(s, msg).state;
        if !acct.locked {
            match msg.tx_type {
                TransactionType::Deposit | TransactionType::Withdrawal => {
                    if msg.amount is Some && !s1.records.contains_key(msg.tx) {
                        assert forall|c: u16| #[trigger]
                            s2.accounts.contains_key(c) implies s2.accounts[c].held as int
                            == pair_sum(disputed_pairs(s2.records, c)) by {
                            assert(disputed_pairs(s2.records, c) =~= disputed_pairs(
                                s1.records,
                                c,
                            ));
                        };
                    }
                },
                TransactionType::Dispute => {
                    if s1.records.contains_key(msg.tx) {
                        let rec = s1.records[msg.tx];
                        if rec.client_id == msg.client && !rec.disputed && rec.tx_type
                            == TransactionType::Deposit && acct.available >= rec.amount {
                            let pr = disputed_pairs(s1.records, msg.client);
                            lemma_disputed_pairs_finite(s1.records, msg.client);
                            assert(!pr.contains((msg.tx, rec.amount)));
                            assert(disputed_pairs(s2.records, msg.client) =~= pr.insert(
                                (msg.tx, rec.amount),
                            ));
                            lemma_pair_sum_insert(pr, (msg.tx, rec.amount));
                            assert forall|c: u16| #[trigger]
                                s2.accounts.contains_key(c) implies s2.accounts[c].held as int
                                == pair_sum(disputed_pairs(s2.records, c)) by {
                                if c != msg.client {
                                    assert(disputed_pairs(s2.records, c) =~= disputed_pairs(
                                        s1.records,
                                        c,
                                    ));
                                }
                            };
                        }
                    }
                },
                TransactionType::Resolve | TransactionType::Chargeback => {
                    if s1.records.contains_key(msg.tx) {
                        let rec = s1.records[msg.tx];
                        if rec.client_id == msg.client && rec.disputed && acct.held
                            >= rec.amount {
                            let pr = disputed_pairs(s1.records, msg.client);
                            lemma_disputed_pairs_finite(s1.records, msg.client);
                            assert(pr.contains((msg.tx, rec.amount)));
                            assert(disputed_pairs(s2.records, msg.client) =~= pr.remove(
                                (msg.tx, rec.amount),
                            ));
                            lemma_pair_sum_remove(pr, (msg.tx, rec.amount));
                            assert forall|c: u16| #[trigger]
                                s2.accounts.contains_key(c) implies s2.accounts[c].held as int
                                == pair_sum(disputed_pairs(s2.records, c)) by {
                                if c != msg.client {
                                    assert(disputed_pairs(s2.records, c) =~= disputed_pairs(
                                        s1.records,
                                        c,
                                    ));
                                }
                            };
                        }
                    }
                },
                _ => {},
            }
        }
    }
}

/// Law: held funds are never torn below zero, because they always cover the
/// open disputes. In every reachable state, a resolve or chargeback that
/// names the client's own disputed record finds `held` at least the recorded
/// amount, and — on an unlocked account — succeeds.
pub proof fn lemma_settlement_always_covered(s: EngineState, msg: TransactionMessage)
    requires
        s.wf(),
        s.held_covers_disputes(),
        msg.tx_type == TransactionType::Resolve || msg.tx_type == TransactionType::Chargeback,
        s.records.contains_key(msg.tx),
        s.records[msg.tx].client_id == msg.client,
        s.records[msg.tx].disputed,
        !s.accounts[msg.client].locked,
    ensures
        s.accounts[msg.client].held >= s.records[msg.tx].amount,
        step(s, msg).outcome == Ok::<(), TransactionError>(()),
{
    assert(s.accounts.contains_key(msg.client));
    let pr = disputed_pairs(s.records, msg.client);
    let p = (msg.tx, s.records[msg.tx].amount);
    lemma_disputed_pairs_finite(s.records, msg.client);
    assert(pr.contains(p));
    lemma_pair_sum_remove(pr, p);
    lemma_pair_sum_nonneg(pr.remove(p));
}

/// Law: the dispute accounting holds in the initial state.
pub proof fn lemma_initial_state_held_accounting()
    ensures
        initial_state().held_covers_disputes(),
{
}

/// Law: the dispute accounting holds in every reachable state: it survives
/// any stream of instructions, so held funds stay covered throughout.
pub proof fn lemma_run_preserves_held_accounting(s: EngineState, msgs: Seq<TransactionMessage>)
    requires
        s.wf(),
        s.held_covers_disputes(),
    ensures
        run(s, msgs).wf(),
        run(s, msgs).held_covers_disputes(),
    decreases msgs.len(),
{
    if msgs.len() == 0 {
    } else if msgs[0].tx_type == TransactionType::Terminate {
    } else {
        lemma_step_preserves_invariant(s, msgs[0]);
        lemma_step_preserves_held_accounting(s, msgs[0]);
        lemma_run_preserves_held_accounting(step(s, msgs[0]).state, msgs.skip(1));
    }
}

} // verus!
