use vstd::prelude::*;

use crate::address::{pay_to_address_script, pay_to_address_spec, Address, ScriptPublicKey};
use crate::error::Error;
use crate::limits::{
    is_dust_spec, is_transaction_output_dust, lemma_sums_nonnegative, minimum_fee_spec, output_size_spec,
    outputs_size_spec, script_public_keys_size_spec, MassCalculator, DUST_MIN_SCRIPT_LEN,
    DUST_REDEEM_INPUT_SIZE, MINIMUM_RELAY_TRANSACTION_FEE,
};
use crate::selection::UtxoSelectionContext;
use crate::utxo::{entry_amount, entry_id, lemma_sum_prefix, lemma_sum_split, sum_amounts, sum_by, UtxoEntryReference};

verus! {

/// A transaction id: a 256-bit hash held as four 64-bit words.
#[derive(Clone, Copy, Debug, PartialEq, Eq, Structural)]
pub struct TransactionId(pub u64, pub u64, pub u64, pub u64);

/// Reference to one output of an earlier transaction.
#[derive(Clone, Copy, Debug, PartialEq, Eq, Structural)]
pub struct TransactionOutpoint {
    pub transaction_id: TransactionId,
    pub index: u32,
}

/// An input spending `previous_outpoint`.
#[derive(Clone, Debug)]
pub struct TransactionInput {
    pub previous_outpoint: TransactionOutpoint,
    pub signature_script: Vec<u8>,
    pub sequence: u64,
    pub sig_op_count: u8,
}

/// An output paying `value` to a locking script.
#[derive(Clone, Debug)]
pub struct TransactionOutput {
    pub value: u64,
    pub script_public_key: ScriptPublicKey,
}

impl TransactionOutput {
    pub fn new(value: u64, script_public_key: ScriptPublicKey) -> (r: TransactionOutput)
        ensures
            r.value == value,
            r.script_public_key == script_public_key,
    {
        TransactionOutput { value, script_public_key }
    }
}

/// A candidate transaction.
#[derive(Clone, Debug)]
pub struct Transaction {
    pub version: u16,
    pub inputs: Vec<TransactionInput>,
    pub outputs: Vec<TransactionOutput>,
    pub lock_time: u64,
    pub subnetwork_id: [u8; 20],
    pub gas: u64,
    pub payload: Vec<u8>,
}

/// A transaction together with the outputs its inputs spend, in input order.
pub struct MutableTransaction {
    pub tx: Transaction,
    pub entries: Vec<UtxoEntryReference>,
}

/// One requested payment.
pub struct PaymentOutput {
    pub address: Address,
    pub amount: u64,
}

/// The requested payments of a transaction.
pub struct PaymentOutputs {
    pub outputs: Vec<PaymentOutput>,
}

pub open spec fn sum_output_values(outputs: Seq<TransactionOutput>) -> nat {
    sum_by(outputs, |o: TransactionOutput| o.value as nat)
}

/// Whether an output of this value with a script of this length is dust.
pub open spec fn is_dust_value(value: int, script_len: int) -> bool {
    if script_len < DUST_MIN_SCRIPT_LEN {
        true
    } else {
        value * 1000 / (3 * (8 + 2 + 8 + script_len + DUST_REDEEM_INPUT_SIZE)) < MINIMUM_RELAY_TRANSACTION_FEE
    }
}

/// Mass that one more output with a script of this length adds.
pub open spec fn extra_output_mass(calc: MassCalculator, script_len: int) -> int {
    (8 + 2 + 8 + script_len) * calc.mass_per_tx_byte + (2 + script_len) * calc.mass_per_script_pub_key_byte
}

/// Minimum relay fee of `tx`, with one more output of script length
/// `extra_script_len` when that is given.
pub open spec fn fee_with_change(
    calc: MassCalculator,
    tx: Transaction,
    extra_script_len: Option<int>,
    minimum_signatures: u16,
) -> int {
    minimum_fee_spec(
        calc.mass_spec(tx.inputs@, tx.outputs@, tx.payload@.len() as int) + match extra_script_len {
            Some(l) => extra_output_mass(calc, l),
            None => 0,
        } + calc.signature_mass_spec(tx.inputs@.len() as int, minimum_signatures),
    )
}

/// What fee adjustment does to the outputs: leaves them as they are, or
/// appends a change output of the given value.
pub enum Adjustment {
    Unchanged,
    Change(u64),
}

/// Outcome of adjusting a transaction for its fee, given the total of its
/// inputs, the length of the change script, and the priority fee.
pub open spec fn adjustment_spec(
    calc: MassCalculator,
    tx: Transaction,
    total_input: int,
    change_script_len: int,
    minimum_signatures: u16,
    priority_fee: int,
) -> Result<Adjustment, Error> {
    let total_output = sum_output_values(tx.outputs@) as int;
    if total_input > u64::MAX || total_output > u64::MAX || priority_fee > total_input {
        Err(Error::InvalidArgument)
    } else if total_output > total_input - priority_fee {
        Err(Error::InsufficientFunds)
    } else {
        let change = total_input - priority_fee - total_output;
        let appended = change > 0 && !is_dust_value(change, change_script_len);
        let minimum_fee = fee_with_change(
            calc,
            tx,
            if appended { Some(change_script_len) } else { None },
            minimum_signatures,
        );
        let total_fee = minimum_fee + priority_fee;
        let fee = if appended { priority_fee } else { total_input - total_output };
        if fee >= total_fee {
            if appended {
                Ok(Adjustment::Change(change as u64))
            } else {
                Ok(Adjustment::Unchanged)
            }
        } else {
            let fee_difference = total_fee - fee;
            if !appended || change < fee_difference {
                Err(Error::InsufficientFunds)
            } else if is_dust_value(change - fee_difference, change_script_len) {
                Ok(Adjustment::Unchanged)
            } else {
                Ok(Adjustment::Change((change - fee_difference) as u64))
            }
        }
    }
}

/// `a` and `b` agree on everything but their outputs.
pub open spec fn same_but_outputs(a: Transaction, b: Transaction) -> bool {
    &&& a.version == b.version
    &&& a.inputs@ == b.inputs@
    &&& a.lock_time == b.lock_time
    &&& a.subnetwork_id == b.subnetwork_id
    &&& a.gas == b.gas
    &&& a.payload@ == b.payload@
}

/// Everything `adjust_transaction_for_fee` promises, relating the transaction
/// before (`pre`) and after (`post`) to its result.
pub open spec fn adjusted(
    pre: MutableTransaction,
    post: MutableTransaction,
    r: Result<bool, Error>,
    change_address: Address,
    calc: MassCalculator,
    minimum_signatures: u16,
    priority_fee: Option<u64>,
) -> bool {
    let pf = match priority_fee {
        Some(f) => f as int,
        None => 0,
    };
    let change_script = pay_to_address_spec(change_address.version, change_address.payload@);
    let outcome = if !change_address.spec_is_valid() {
        Err(Error::InvalidArgument)
    } else {
        adjustment_spec(calc, pre.tx, sum_amounts(pre.entries@) as int, change_script.len() as int, minimum_signatures, pf)
    };
    &&& post.entries@ == pre.entries@
    &&& same_but_outputs(post.tx, pre.tx)
    &&& match outcome {
        Err(e) => r == Err::<bool, Error>(e) && post.tx.outputs@ == pre.tx.outputs@,
        Ok(Adjustment::Unchanged) => r == Ok::<bool, Error>(true) && post.tx.outputs@ == pre.tx.outputs@,
        Ok(Adjustment::Change(v)) => {
            &&& r == Ok::<bool, Error>(true)
            &&& post.tx.outputs@.len() == pre.tx.outputs@.len() + 1
            &&& post.tx.outputs@.drop_last() == pre.tx.outputs@
            &&& post.tx.outputs@.last().value == v
            &&& post.tx.outputs@.last().script_public_key.version == 0
            &&& post.tx.outputs@.last().script_public_key.script@ == change_script
        },
    }
}

proof fn lemma_push_output(calc: MassCalculator, tx: Transaction, post: Transaction, o: TransactionOutput, m: u16)
    requires
        same_but_outputs(post, tx),
        post.outputs@ == tx.outputs@.push(o),
    ensures
        calc.tx_relay_fee_spec(post, m) == fee_with_change(
            calc,
            tx,
            Some(o.script_public_key.script@.len() as int),
            m,
        ),
        sum_output_values(post.outputs@) == sum_output_values(tx.outputs@) + o.value,
{
    let s = tx.outputs@;
    let t = s.push(o);
    assert(t.drop_last() == s);
    let l = o.script_public_key.script@.len() as int;
    assert(outputs_size_spec(t) == outputs_size_spec(s) + output_size_spec(o));
    assert(script_public_keys_size_spec(t) == script_public_keys_size_spec(s) + 2 + l);
    let a = calc.mass_per_tx_byte as int;
    let b = calc.mass_per_script_pub_key_byte as int;
    let x = crate::limits::tx_size_spec(tx.inputs@, s, tx.payload@.len() as int);
    let y = script_public_keys_size_spec(s);
    assert((x + 18 + l) * a == x * a + (18 + l) * a) by (nonlinear_arith);
    assert((y + 2 + l) * b == y * b + (2 + l) * b) by (nonlinear_arith);
    assert(post.inputs@ == tx.inputs@);
    assert(post.payload@.len() == tx.payload@.len());
}

proof fn lemma_dust_value(o: TransactionOutput)
    ensures
        is_dust_spec(o) == is_dust_value(o.value as int, o.script_public_key.script@.len() as int),
{
}

proof fn lemma_minimum_fee_monotone(x: int, y: int)
    requires
        0 <= x <= y,
    ensures
        minimum_fee_spec(x) <= minimum_fee_spec(y),
{
    assert(x * 1000 / 1000 == x) by (nonlinear_arith);
    assert(y * 1000 / 1000 == y) by (nonlinear_arith);
}

/// After a successful fee adjustment, what the inputs give beyond the outputs
/// covers the minimum relay fee of the final transaction plus the priority fee.
pub proof fn lemma_adjusted_fee_sufficient(
    pre: MutableTransaction,
    post: MutableTransaction,
    change_address: Address,
    calc: MassCalculator,
    minimum_signatures: u16,
    priority_fee: Option<u64>,
)
    requires
        adjusted(pre, post, Ok(true), change_address, calc, minimum_signatures, priority_fee),
    ensures
        sum_amounts(pre.entries@) >= sum_output_values(post.tx.outputs@),
        sum_amounts(post.entries@) - sum_output_values(post.tx.outputs@) >= calc.tx_relay_fee_spec(
            post.tx,
            minimum_signatures,
        ) + match priority_fee {
            Some(f) => f as int,
            None => 0,
        },
{
    let pf = match priority_fee {
        Some(f) => f as int,
        None => 0,
    };
    let l = pay_to_address_spec(change_address.version, change_address.payload@).len() as int;
    let tin = sum_amounts(pre.entries@) as int;
    let tout = sum_output_values(pre.tx.outputs@) as int;
    let tx = pre.tx;
    lemma_sums_nonnegative(tx.inputs@, tx.outputs@);
    calc.lemma_mass_nonnegative(tx.inputs@, tx.outputs@, tx.payload@.len() as int, minimum_signatures);
    let base = calc.mass_spec(tx.inputs@, tx.outputs@, tx.payload@.len() as int) + calc.signature_mass_spec(
        tx.inputs@.len() as int,
        minimum_signatures,
    );
    assert(extra_output_mass(calc, l) >= 0) by (nonlinear_arith)
        requires
            l >= 0,
            calc.mass_per_tx_byte >= 0,
            calc.mass_per_script_pub_key_byte >= 0,
    ;
    lemma_minimum_fee_monotone(base, base + extra_output_mass(calc, l));
    assert(fee_with_change(calc, tx, None, minimum_signatures) == minimum_fee_spec(base));
    assert(fee_with_change(calc, tx, Some(l), minimum_signatures) == minimum_fee_spec(base + extra_output_mass(calc, l)));
    assert(post.tx.inputs@ == pre.tx.inputs@);
    assert(post.tx.payload@ == pre.tx.payload@);
    match adjustment_spec(calc, pre.tx, tin, l, minimum_signatures, pf) {
        Ok(Adjustment::Change(v)) => {
            let o = post.tx.outputs@.last();
            assert(post.tx.outputs@ == pre.tx.outputs@.push(o));
            lemma_push_output(calc, pre.tx, post.tx, o, minimum_signatures);
        },
        _ => {
            assert(post.tx.outputs@ == pre.tx.outputs@);
            assert(calc.tx_relay_fee_spec(post.tx, minimum_signatures) == fee_with_change(calc, tx, None, minimum_signatures));
        },
    }
}

impl MutableTransaction {
    pub fn new(tx: Transaction, entries: Vec<UtxoEntryReference>) -> (r: MutableTransaction)
        ensures
            r.tx == tx,
            r.entries == entries,
    {
        MutableTransaction { tx, entries }
    }

    /// Total of the amounts of the spent outputs, or `None` when it exceeds `u64::MAX`.
    pub fn total_input_amount(&self) -> (r: Option<u64>)
        ensures
            r == if sum_amounts(self.entries@) <= u64::MAX {
                Some(sum_amounts(self.entries@) as u64)
            } else {
                None::<u64>
            },
    {
        let mut total: u64 = 0;
        let mut i: usize = 0;
        while i < self.entries.len()
            invariant
                i <= self.entries@.len(),
                total == sum_amounts(self.entries@.subrange(0, i as int)),
            decreases self.entries@.len() - i,
        {
            proof {
                lemma_sum_prefix(self.entries@, i as int, |e| entry_amount(e));
                lemma_sum_split(self.entries@, i + 1, |e| entry_amount(e));
            }
            match total.checked_add(self.entries[i].amount()) {
                Some(t) => total = t,
                None => return None,
            }
            i += 1;
        }
        assert(self.entries@.subrange(0, i as int) == self.entries@);
        Some(total)
    }

    /// Total of the output values, or `None` when it exceeds `u64::MAX`.
    pub fn total_output_amount(&self) -> (r: Option<u64>)
        ensures
            r == if sum_output_values(self.tx.outputs@) <= u64::MAX {
                Some(sum_output_values(self.tx.outputs@) as u64)
            } else {
                None::<u64>
            },
    {
        let mut total: u64 = 0;
        let mut i: usize = 0;
        while i < self.tx.outputs.len()
            invariant
                i <= self.tx.outputs@.len(),
                total == sum_output_values(self.tx.outputs@.subrange(0, i as int)),
            decreases self.tx.outputs@.len() - i,
        {
            proof {
                lemma_sum_prefix(self.tx.outputs@, i as int, |o: TransactionOutput| o.value as nat);
                lemma_sum_split(self.tx.outputs@, i + 1, |o: TransactionOutput| o.value as nat);
            }
            match total.checked_add(self.tx.outputs[i].value) {
                Some(t) => total = t,
                None => return None,
            }
            i += 1;
        }
        assert(self.tx.outputs@.subrange(0, i as int) == self.tx.outputs@);
        Some(total)
    }
}

/// Adds a change output for what the inputs give beyond the outputs and the
/// priority fee, unless it would be dust, then makes sure the fee covers the
/// minimum relay fee (computed once, with the change output in place) plus the
/// priority fee, taking the shortfall out of the change and dropping the change
/// when that leaves it dust. On failure the transaction is left unchanged.
pub fn adjust_transaction_for_fee(
    mtx: &mut MutableTransaction,
    change_address: &Address,
    calc: &MassCalculator,
    minimum_signatures: u16,
    priority_fee: Option<u64>,
) -> (r: Result<bool, Error>)
    ensures
        adjusted(*old(mtx), *final(mtx), r, *change_address, *calc, minimum_signatures, priority_fee),
{
    let ghost pre = *mtx;
    let ghost l = pay_to_address_spec(change_address.version, change_address.payload@).len() as int;
    if !change_address.is_valid() {
        return Err(Error::InvalidArgument);
    }
    let total_input_amount = match mtx.total_input_amount() {
        Some(v) => v,
        None => return Err(Error::InvalidArgument),
    };
    let mut total_output_amount = match mtx.total_output_amount() {
        Some(v) => v,
        None => return Err(Error::InvalidArgument),
    };
    let priority_fee = match priority_fee {
        Some(f) => f,
        None => 0,
    };
    if priority_fee > total_input_amount {
        return Err(Error::InvalidArgument);
    }
    let amount_after_priority_fee = total_input_amount - priority_fee;
    if total_output_amount > amount_after_priority_fee {
        return Err(Error::InsufficientFunds);
    }
    let change = amount_after_priority_fee - total_output_amount;
    let mut appended = false;
    if change > 0 {
        let change_output = TransactionOutput::new(change, pay_to_address_script(change_address));
        proof {
            lemma_dust_value(change_output);
        }
        if !is_transaction_output_dust(&change_output) {
            total_output_amount = total_output_amount + change;
            mtx.tx.outputs.push(change_output);
            appended = true;
        }
    }
    let ghost mid = *mtx;
    proof {
        if appended {
            assert(mid.tx.outputs@.drop_last() =~= pre.tx.outputs@);
            assert(mid.tx.outputs@.last().value == change);
            assert(mid.tx.outputs@.last().script_public_key.script@ == pay_to_address_spec(change_address.version, change_address.payload@));
            lemma_push_output(*calc, pre.tx, mid.tx, mid.tx.outputs@.last(), minimum_signatures);
            assert(mid.tx.outputs@ == pre.tx.outputs@.push(mid.tx.outputs@.last()));
        }
    }
    let minimum_fee = calc.calc_minium_tx_relay_fee(&mtx.tx, minimum_signatures);
    proof {
        let pf = priority_fee as int;
        let tin = total_input_amount as int;
        let tout = sum_output_values(pre.tx.outputs@) as int;
        assert(tin == sum_amounts(pre.entries@));
        assert(change == tin - pf - tout);
        assert(appended == (change > 0 && !is_dust_value(change as int, l)));
        if appended {
            assert(minimum_fee == fee_with_change(*calc, pre.tx, Some(l), minimum_signatures));
            assert(total_output_amount == tout + change);
        } else {
            assert(mtx.tx == pre.tx);
            assert(minimum_fee == fee_with_change(*calc, pre.tx, None, minimum_signatures));
            assert(total_output_amount == tout);
        }
    }
    let total_fee: u128 = minimum_fee as u128 + priority_fee as u128;
    let fee = total_input_amount - total_output_amount;
    if (fee as u128) < total_fee {
        let fee_difference: u128 = total_fee - fee as u128;
        if !appended || (change as u128) < fee_difference {
            if appended {
                mtx.tx.outputs.pop();
                assert(mtx.tx.outputs@ =~= pre.tx.outputs@);
            }
            proof {
                assert(adjustment_spec(*calc, pre.tx, sum_amounts(pre.entries@) as int, l, minimum_signatures, priority_fee as int)
                    == Err::<Adjustment, Error>(Error::InsufficientFunds));
            }
            return Err(Error::InsufficientFunds);
        }
        let new_change = change - fee_difference as u64;
        let last = mtx.tx.outputs.pop();
        match last {
            Some(output) => {
                let reduced = TransactionOutput::new(new_change, output.script_public_key);
                proof {
                    lemma_dust_value(reduced);
                }
                assert(mtx.tx.outputs@ =~= pre.tx.outputs@);
                if !is_transaction_output_dust(&reduced) {
                    mtx.tx.outputs.push(reduced);
                    assert(mtx.tx.outputs@.drop_last() =~= pre.tx.outputs@);
                    assert(reduced.script_public_key.script@ == pay_to_address_spec(change_address.version, change_address.payload@));
                }
            },
            None => {},
        }
    }
    Ok(true)
}

/// `m` is the transaction built from these selected outputs and payments,
/// before any fee adjustment: one input per selected output, in order, and one
/// output per payment, in order.
pub open spec fn is_built(
    m: MutableTransaction,
    sig_op_count: u8,
    selected: Seq<UtxoEntryReference>,
    payments: Seq<PaymentOutput>,
    payload: Seq<u8>,
) -> bool {
    &&& m.entries@ == selected
    &&& m.tx.version == 0
    &&& m.tx.lock_time == 0
    &&& m.tx.gas == 0
    &&& forall|k: int| 0 <= k < 20 ==> m.tx.subnetwork_id@[k] == 0
    &&& m.tx.payload@ == payload
    &&& m.tx.inputs@.len() == selected.len()
    &&& forall|i: int|
        0 <= i < selected.len() ==> {
            &&& (#[trigger] m.tx.inputs@[i]).previous_outpoint == entry_id(selected[i])
            &&& m.tx.inputs@[i].sequence == i
            &&& m.tx.inputs@[i].sig_op_count == sig_op_count
            &&& m.tx.inputs@[i].signature_script@.len() == 0
        }
    &&& m.tx.outputs@.len() == payments.len()
    &&& forall|i: int|
        0 <= i < payments.len() ==> {
            &&& (#[trigger] m.tx.outputs@[i]).value == payments[i].amount
            &&& m.tx.outputs@[i].script_public_key.version == 0
            &&& m.tx.outputs@[i].script_public_key.script@ == pay_to_address_spec(
                payments[i].address.version,
                payments[i].address.payload@,
            )
        }
}

pub open spec fn priority_fee_of(priority_fee: Option<u64>) -> u64 {
    match priority_fee {
        Some(f) => f,
        None => 0,
    }
}

pub open spec fn payload_of(payload: Option<Vec<u8>>) -> Seq<u8> {
    match payload {
        Some(p) => p@,
        None => Seq::<u8>::empty(),
    }
}

/// A payment address is malformed, or the priority fee exceeds what was selected.
pub open spec fn creation_is_invalid(payments: Seq<PaymentOutput>, selected_amount: nat, priority_fee: u64) -> bool {
    (exists|i: int| 0 <= i < payments.len() && !(#[trigger] payments[i]).address.spec_is_valid())
        || priority_fee > selected_amount
}

/// The result of creating a transaction is that of adjusting `built` for its fee.
pub open spec fn created(
    built: MutableTransaction,
    r: Result<MutableTransaction, Error>,
    change_address: Address,
    calc: MassCalculator,
    minimum_signatures: u16,
    priority_fee: u64,
) -> bool {
    match r {
        Ok(m) => adjusted(built, m, Ok(true), change_address, calc, minimum_signatures, Some(priority_fee)),
        Err(e) => exists|post: MutableTransaction|
            #[trigger] adjusted(built, post, Err(e), change_address, calc, minimum_signatures, Some(priority_fee)),
    }
}

/// Builds a transaction spending the selected outputs of `ctx` to the requested
/// payments and adjusts it for its fee with a change output to `change_address`.
/// Fails with `InvalidArgument` when a payment address is malformed or the
/// priority fee exceeds the selected amount.
pub fn create_transaction(
    sig_op_count: u8,
    ctx: &UtxoSelectionContext,
    outputs: &PaymentOutputs,
    change_address: &Address,
    calc: &MassCalculator,
    minimum_signatures: u16,
    priority_fee: Option<u64>,
    payload: Option<Vec<u8>>,
) -> (r: Result<MutableTransaction, Error>)
    requires
        ctx.wf(),
    ensures
        creation_is_invalid(outputs.outputs@, ctx@.selected_amount, priority_fee_of(priority_fee)) ==> r
            == Err::<MutableTransaction, Error>(Error::InvalidArgument),
        !creation_is_invalid(outputs.outputs@, ctx@.selected_amount, priority_fee_of(priority_fee)) ==> exists|
            built: MutableTransaction,
        |
            #[trigger] is_built(built, sig_op_count, ctx@.selected, outputs.outputs@, payload_of(payload))
                && created(built, r, *change_address, *calc, minimum_signatures, priority_fee_of(priority_fee)),
{
    let entries_ref = ctx.selected_entries();
    let total_input_amount = ctx.selected_amount();
    proof {
        ctx.lemma_wf_amount();
    }
    let mut entries: Vec<UtxoEntryReference> = Vec::new();
    let mut inputs: Vec<TransactionInput> = Vec::new();
    let mut i: usize = 0;
    while i < entries_ref.len()
        invariant
            i <= entries_ref@.len(),
            entries@ == entries_ref@.subrange(0, i as int),
            inputs@.len() == i,
            forall|k: int|
                0 <= k < i ==> {
                    &&& (#[trigger] inputs@[k]).previous_outpoint == entry_id(entries_ref@[k])
                    &&& inputs@[k].sequence == k
                    &&& inputs@[k].sig_op_count == sig_op_count
                    &&& inputs@[k].signature_script@.len() == 0
                },
        decreases entries_ref@.len() - i,
    {
        let entry = entries_ref[i].share();
        inputs.push(
            TransactionInput {
                previous_outpoint: entry.id(),
                signature_script: Vec::new(),
                sequence: i as u64,
                sig_op_count,
            },
        );
        entries.push(entry);
        proof {
            assert(entries_ref@.subrange(0, i + 1) == entries_ref@.subrange(0, i as int).push(entries_ref@[i as int]));
        }
        i += 1;
    }
    assert(entries_ref@.subrange(0, i as int) == entries_ref@);
    let fee: u64 = match priority_fee {
        Some(f) => f,
        None => 0,
    };
    if fee > total_input_amount {
        return Err(Error::InvalidArgument);
    }
    let mut outputs_: Vec<TransactionOutput> = Vec::new();
    let mut j: usize = 0;
    while j < outputs.outputs.len()
        invariant
            j <= outputs.outputs@.len(),
            outputs_@.len() == j,
            forall|k: int| 0 <= k < j ==> (#[trigger] outputs.outputs@[k]).address.spec_is_valid(),
            forall|k: int|
                0 <= k < j ==> {
                    &&& (#[trigger] outputs_@[k]).value == outputs.outputs@[k].amount
                    &&& outputs_@[k].script_public_key.version == 0
                    &&& outputs_@[k].script_public_key.script@ == pay_to_address_spec(
                        outputs.outputs@[k].address.version,
                        outputs.outputs@[k].address.payload@,
                    )
                },
        decreases outputs.outputs@.len() - j,
    {
        let output = &outputs.outputs[j];
        if !output.address.is_valid() {
            return Err(Error::InvalidArgument);
        }
        outputs_.push(TransactionOutput::new(output.amount, pay_to_address_script(&output.address)));
        j += 1;
    }
    let ghost body = match &payload {
        Some(p) => p@,
        None => Seq::<u8>::empty(),
    };
    let payload_bytes = match payload {
        Some(p) => p,
        None => Vec::new(),
    };
    assert(payload_bytes@ == body);
    let tx = Transaction {
        version: 0,
        inputs,
        outputs: outputs_,
        lock_time: 0,
        subnetwork_id: [0u8; 20],
        gas: 0,
        payload: payload_bytes,
    };
    let mut mtx = MutableTransaction::new(tx, entries);
    let ghost built = mtx;
    let adjusted_result = adjust_transaction_for_fee(&mut mtx, change_address, calc, minimum_signatures, Some(fee));
    proof {
        assert(is_built(built, sig_op_count, ctx@.selected, outputs.outputs@, payload_of(payload)));
        assert(fee == priority_fee_of(priority_fee));
    }
    match adjusted_result {
        Ok(_) => {
            assert(created(built, Ok(mtx), *change_address, *calc, minimum_signatures, fee));
            Ok(mtx)
        },
        Err(e) => {
            assert(adjusted(built, mtx, Err(e), *change_address, *calc, minimum_signatures, Some(fee)));
            Err(e)
        },
    }
}

} // verus!
