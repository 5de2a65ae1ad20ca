//! Trusted boundary around `dashmap::DashMap`, the concurrent map the engine
//! keeps its two stores in. Each wrapper's contract states, over the two
//! uninterpreted contents functions, what the crate's source shows of the
//! one method the wrapper calls; everything built on top is verified.

use vstd::prelude::*;
use dashmap::DashMap;
use crate::structures::{ClientAccount, TransactionRecord};

verus! {

#[verifier::external_type_specification]
#[verifier::external_body]
#[verifier::reject_recursive_types(K)]
#[verifier::reject_recursive_types(V)]
#[verifier::reject_recursive_types(S)]
pub struct ExDashMap<K, V, S>(DashMap<K, V, S>);

/// The account store's contents: which account each client id maps to.
pub uninterp spec fn clients_map_of(m: DashMap<u16, ClientAccount>) -> Map<u16, ClientAccount>;

/// The record store's contents: which record each transaction id maps to.
pub uninterp spec fn records_map_of(m: DashMap<u32, TransactionRecord>) -> Map<u32, TransactionRecord>;

/// Relies on `DashMap::get`: returns a guard on the entry under the key if
/// one exists. The guarded value is copied out.
#[verifier::external_body]
pub(crate) fn get_account(m: &DashMap<u16, ClientAccount>, client: u16) -> (r: Option<ClientAccount>)
    ensures
        r == if clients_map_of(*m).contains_key(client) {
            Some(clients_map_of(*m)[client])
        } else {
            None::<ClientAccount>
        },
{
    match m.get(&client) {
        Some(guard) => Some(*guard),
        None => None,
    }
}

/// Relies on `DashMap::insert`: puts the value under the key, replacing any
/// previous entry.
#[verifier::external_body]
pub(crate) fn insert_account(m: &mut DashMap<u16, ClientAccount>, client: u16, account: ClientAccount)
    ensures
        clients_map_of(*final(m)) == clients_map_of(*old(m)).insert(client, account),
{
    m.insert(client, account);
}

/// Relies on `DashMap::get`: returns a guard on the entry under the key if
/// one exists. The guarded value is copied out.
#[verifier::external_body]
pub(crate) fn get_record(m: &DashMap<u32, TransactionRecord>, tx: u32) -> (r: Option<TransactionRecord>)
    ensures
        r == if records_map_of(*m).contains_key(tx) {
            Some(records_map_of(*m)[tx])
        } else {
            None::<TransactionRecord>
        },
{
    match m.get(&tx) {
        Some(guard) => Some(*guard),
        None => None,
    }
}

/// Relies on `DashMap::insert`: puts the value under the key, replacing any
/// previous entry.
#[verifier::external_body]
pub(crate) fn insert_record(m: &mut DashMap<u32, TransactionRecord>, tx: u32, record: TransactionRecord)
    ensures
        records_map_of(*final(m)) == records_map_of(*old(m)).insert(tx, record),
{
    m.insert(tx, record);
}

} // verus!
