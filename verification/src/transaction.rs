//! An all-or-nothing unit of atomicity over a [`crate::Registry`].
//!
//! Keys created under an active transaction stage their mutations in the
//! registry's transaction table. [`Transaction::commit`] makes every
//! staged mutation durable at once; [`Transaction::rollback`] discards
//! them all. A transaction that is never committed never becomes
//! durable: losing one cannot silently commit. This store supports one
//! active transaction at a time; roll a transaction back to release the
//! slot, as nothing rolls it back implicitly.

use vstd::prelude::*;

verus! {

use crate::Registry;
use crate::RegResult;

/// An active, committed or rolled-back transaction of one registry.
#[derive(Debug)]
pub struct Transaction {
    id: u64,
}

impl Transaction {
    /// The identifier of this transaction within its registry.
    pub closed spec fn tx_id(&self) -> u64 {
        self.id
    }

    /// The identifier of this transaction within its registry.
    pub(crate) fn raw_id(&self) -> (r: u64)
        ensures
            r == self.tx_id(),
    {
        self.id
    }

    /// Begin a transaction on the given registry. Fails
    /// sharing-violation while another transaction is active there.
    pub fn new(reg: &mut Registry) -> (r: RegResult<Transaction>)
        ensures
            old(reg).wf() ==> final(reg).wf(),
            match r {
                Ok(t) => old(reg)@.active_tx is None && old(reg)@.next_tx < u64::MAX && t.tx_id()
                    == old(reg)@.next_tx && final(reg)@ == (crate::RegistryM {
                    active_tx: Some(t.tx_id()),
                    next_tx: (t.tx_id() + 1) as u64,
                    tx_entries: old(reg)@.entries,
                    ..old(reg)@
                }),
                Err(e) => e.err == crate::ERROR_SHARING_VIOLATION && !(old(reg)@.active_tx is None
                    && old(reg)@.next_tx < u64::MAX) && final(reg)@ == old(reg)@,
            },
    {
        match reg.begin_tx() {
            Ok(id) => Ok(Transaction { id }),
            Err(e) => Err(e),
        }
    }

    /// Atomically apply every mutation staged under this transaction.
    /// Fails transaction-terminal when this transaction is no longer
    /// the active one; after success it is terminal.
    pub fn commit(&self, reg: &mut Registry) -> (r: RegResult<()>)
        ensures
            old(reg).wf() ==> final(reg).wf(),
            match r {
                Ok(()) => old(reg)@.active_tx == Some(self.tx_id()) && final(reg)@ == (
                crate::RegistryM {
                    entries: old(reg)@.tx_entries,
                    tx_entries: old(reg)@.entries,
                    active_tx: None,
                    ..old(reg)@
                }),
                Err(e) => e.err == crate::ERROR_TRANSACTION_NOT_ACTIVE && old(reg)@.active_tx
                    != Some(self.tx_id()) && final(reg)@ == old(reg)@,
            },
    {
        reg.commit_tx(self.raw_id())
    }

    /// Discard every mutation staged under this transaction, leaving
    /// the durable table untouched. Fails transaction-terminal when
    /// this transaction is no longer the active one.
    pub fn rollback(&self, reg: &mut Registry) -> (r: RegResult<()>)
        ensures
            old(reg).wf() ==> final(reg).wf(),
            match r {
                Ok(()) => old(reg)@.active_tx == Some(self.tx_id()) && final(reg)@ == (
                crate::RegistryM {
                    tx_entries: Seq::empty(),
                    active_tx: None,
                    ..old(reg)@
                }),
                Err(e) => e.err == crate::ERROR_TRANSACTION_NOT_ACTIVE && old(reg)@.active_tx
                    != Some(self.tx_id()) && final(reg)@ == old(reg)@,
            },
    {
        reg.rollback_tx(self.raw_id())
    }
}

} // verus!
