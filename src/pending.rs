use vstd::prelude::*;

use crate::address::Address;
use crate::error::Error;
use crate::selection::{owners_listed, owning_addresses};
use crate::tx::{sum_output_values, MutableTransaction, Transaction};
use crate::utxo::{sum_amounts, UtxoEntryReference};

verus! {

/// A built transaction awaiting signature and submission, with its totals.
pub struct PendingTransaction {
    pub mtx: MutableTransaction,
    pub payment_value: Option<u64>,
    pub change_output_value: u64,
    pub aggregate_input_value: u64,
    pub aggregate_output_value: u64,
    pub is_batch: bool,
}

impl PendingTransaction {
    /// The totals agree with the transaction, and its outputs do not exceed its inputs.
    pub open spec fn wf(&self) -> bool {
        &&& self.aggregate_input_value == sum_amounts(self.mtx.entries@)
        &&& self.aggregate_output_value == sum_output_values(self.mtx.tx.outputs@)
        &&& self.aggregate_output_value <= self.aggregate_input_value
    }

    /// Wraps a transaction, computing its input and output totals. Fails with
    /// `InvalidArgument` when a total leaves the `u64` range or the outputs
    /// exceed the inputs.
    pub fn try_new(
        mtx: MutableTransaction,
        payment_value: Option<u64>,
        change_output_value: u64,
        is_batch: bool,
    ) -> (r: Result<PendingTransaction, Error>)
        ensures
            r.is_ok() == (sum_amounts(mtx.entries@) <= u64::MAX && sum_output_values(mtx.tx.outputs@)
                <= sum_amounts(mtx.entries@)),
            r matches Ok(p) ==> {
                &&& p.wf()
                &&& p.mtx == mtx
                &&& p.payment_value == payment_value
                &&& p.change_output_value == change_output_value
                &&& p.is_batch == is_batch
            },
            r matches Err(e) ==> e == Error::InvalidArgument,
    {
        let aggregate_input_value = match mtx.total_input_amount() {
            Some(v) => v,
            None => return Err(Error::InvalidArgument),
        };
        let aggregate_output_value = match mtx.total_output_amount() {
            Some(v) => v,
            None => return Err(Error::InvalidArgument),
        };
        if aggregate_output_value > aggregate_input_value {
            return Err(Error::InvalidArgument);
        }
        Ok(
            PendingTransaction {
                mtx,
                payment_value,
                change_output_value,
                aggregate_input_value,
                aggregate_output_value,
                is_batch,
            },
        )
    }

    pub fn payment_value(&self) -> (r: Option<u64>)
        ensures
            r == self.payment_value,
    {
        self.payment_value
    }

    pub fn change_value(&self) -> (r: u64)
        ensures
            r == self.change_output_value,
    {
        self.change_output_value
    }

    /// The fee paid: what the inputs give beyond the outputs.
    pub fn fees(&self) -> (r: u64)
        requires
            self.wf(),
        ensures
            r == self.aggregate_input_value - self.aggregate_output_value,
    {
        self.aggregate_input_value - self.aggregate_output_value
    }

    pub fn aggregate_input_value(&self) -> (r: u64)
        ensures
            r == self.aggregate_input_value,
    {
        self.aggregate_input_value
    }

    pub fn aggregate_output_value(&self) -> (r: u64)
        ensures
            r == self.aggregate_output_value,
    {
        self.aggregate_output_value
    }

    /// `"batch"` for a transaction that consolidates outputs toward a later
    /// one, `"final"` otherwise.
    pub fn kind(&self) -> (r: String)
        ensures
            r@ == if self.is_batch {
                "batch"@
            } else {
                "final"@
            },
    {
        if self.is_batch {
            "batch".to_owned()
        } else {
            "final".to_owned()
        }
    }

    /// The distinct owning addresses of the spent outputs.
    pub fn addresses(&self) -> (r: Vec<Address>)
        ensures
            owners_listed(self.mtx.entries@, r@),
    {
        owning_addresses(&self.mtx.entries)
    }

    /// Handles on the spent outputs, in input order.
    pub fn get_utxo_entries(&self) -> (r: Vec<UtxoEntryReference>)
        ensures
            r@ == self.mtx.entries@,
    {
        let mut r: Vec<UtxoEntryReference> = Vec::new();
        let mut i: usize = 0;
        while i < self.mtx.entries.len()
            invariant
                i <= self.mtx.entries@.len(),
                r@ == self.mtx.entries@.subrange(0, i as int),
            decreases self.mtx.entries@.len() - i,
        {
            r.push(self.mtx.entries[i].share());
            proof {
                assert(self.mtx.entries@.subrange(0, i + 1) == self.mtx.entries@.subrange(0, i as int).push(
                    self.mtx.entries@[i as int],
                ));
            }
            i += 1;
        }
        assert(self.mtx.entries@.subrange(0, i as int) == self.mtx.entries@);
        r
    }

    pub fn transaction(&self) -> (r: &Transaction)
        ensures
            *r == self.mtx.tx,
    {
        &self.mtx.tx
    }
}

} // verus!
