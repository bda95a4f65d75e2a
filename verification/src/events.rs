//! The typed events the scheduler consumes and the decisions it emits.

use vstd::prelude::*;

verus! {

/// An observation from the fee market.
#[derive(Debug, Clone, PartialEq)]
pub enum GasEvent {
    BaseFeeUpdate { base_fee: u64, timestamp: u64 },
    MempoolTx { tx_hash: [u8; 32], max_fee: u64, max_priority_fee: u64, gas_limit: u64 },
    NewBlock { number: u64, base_fee: u64, gas_used: u64, gas_limit: u64 },
    TxConfirmed { tx_hash: [u8; 32], block_number: u64 },
}

/// A user-submitted intent to place a transaction on chain.
#[derive(Debug, Clone)]
pub struct TransactionRequest {
    pub id: u64,
    pub from: [u8; 20],
    pub to: [u8; 20],
    pub data: Vec<u8>,
    /// A 256-bit unsigned amount, big-endian.
    pub value: [u8; 32],
    /// Absolute cap on the effective gas price (base fee plus tip).
    pub max_fee_per_gas: u64,
    /// Priority tip on top of the base fee.
    pub max_priority_fee_per_gas: u64,
    pub deadline: Option<u64>,
}

/// A decision emitted by the scheduler.
#[derive(Debug, Clone, PartialEq)]
pub enum SchedulerDecision {
    Submit { tx_id: u64, nonce: u64, gas_price: u64 },
    Defer { tx_id: u64, reason: String },
    Reprice { tx_id: u64, old_nonce: u64, new_gas_price: u64 },
    Drop { tx_id: u64, reason: String },
}

impl TransactionRequest {
    /// Fee fields small enough for the scheduler's exact price arithmetic.
    pub open spec fn fees_bounded(&self) -> bool {
        &&& self.max_fee_per_gas <= crate::MAX_BASE_FEE
        &&& self.max_priority_fee_per_gas <= crate::MAX_BASE_FEE
    }
}

impl GasEvent {
    /// The base-fee sample the event carries for the fee model, if any.
    pub open spec fn base_fee_sample(&self) -> Option<u64> {
        match *self {
            GasEvent::BaseFeeUpdate { base_fee, .. } => Some(base_fee),
            GasEvent::NewBlock { base_fee, .. } => Some(base_fee),
            _ => None,
        }
    }

    /// Any carried base fee lies within the fee model's exact range.
    pub open spec fn fees_bounded(&self) -> bool {
        match self.base_fee_sample() {
            Some(f) => f <= crate::MAX_BASE_FEE,
            None => true,
        }
    }
}

} // verus!
