use vstd::prelude::*;

use crate::tx::{Transaction, TransactionInput, TransactionOutput};

verus! {

/// Size of a signature script not yet attached: one push opcode, a 64-byte
/// signature and one sighash-type byte.
pub const SIGNATURE_SIZE: u64 = 66;

/// Minimum relay fee, in sompi per 1000 units of mass.
pub const MINIMUM_RELAY_TRANSACTION_FEE: u64 = 1000;

/// Largest mass of a transaction that is relayed as standard.
pub const MAXIMUM_STANDARD_TRANSACTION_MASS: u64 = 100_000;

/// Maximum supply, in sompi: 29 billion coins of 100 million sompi each.
pub const MAX_SOMPI: u64 = 2_900_000_000_000_000_000;

/// Serialized width of a subnetwork id.
pub const SUBNETWORK_ID_SIZE: u64 = 20;

/// Serialized width of a hash (transaction id, payload hash).
pub const HASH_SIZE: u64 = 32;

/// Extra bytes counted when judging dust: the typical cost of redeeming a
/// pay-to-pubkey output.
pub const DUST_REDEEM_INPUT_SIZE: u64 = 148;

/// Shortest locking script that is not dust whatever the value.
pub const DUST_MIN_SCRIPT_LEN: usize = 33;

/// `x`, clamped to the `u64` range from above.
pub open spec fn sat(x: int) -> int {
    if x > u64::MAX {
        u64::MAX as int
    } else {
        x
    }
}

pub proof fn lemma_sat_add(x: int, y: int)
    requires
        x >= 0,
        y >= 0,
    ensures
        sat(sat(x) + y) == sat(x + y),
        sat(sat(x) + sat(y)) == sat(x + y),
        sat(x) <= sat(x + y),
{
}

pub proof fn lemma_sat_mul(x: int, k: int)
    requires
        x >= 0,
        k >= 0,
    ensures
        sat(sat(x) * k) == sat(x * k),
{
    if x > u64::MAX && k > 0 {
        assert(sat(x) * k >= sat(x)) by (nonlinear_arith)
            requires
                k >= 1,
                sat(x) >= 0,
        ;
        assert(x * k >= x) by (nonlinear_arith)
            requires
                k >= 1,
                x >= 0,
        ;
    }
}

fn sat_add(a: u64, b: u64) -> (r: u64)
    ensures
        r == sat(a + b),
{
    a.saturating_add(b)
}

fn sat_mul(a: u64, b: u64) -> (r: u64)
    ensures
        r == sat(a * b),
{
    match a.checked_mul(b) {
        Some(v) => v,
        None => u64::MAX,
    }
}

/// Serialized size of an outpoint: a transaction id and a 4-byte index.
pub open spec fn outpoint_size_spec() -> int {
    HASH_SIZE + 4
}

/// Serialized size of an input: outpoint, script length, script, sequence.
pub open spec fn input_size_spec(input: TransactionInput) -> int {
    outpoint_size_spec() + 8 + input.signature_script@.len() as int + 8
}

/// Serialized size of an output: value, script version, script length, script.
pub open spec fn output_size_spec(output: TransactionOutput) -> int {
    8 + 2 + 8 + output.script_public_key.script@.len() as int
}

/// Serialized size of a transaction with no inputs, outputs or payload.
pub open spec fn blank_size_spec() -> int {
    2 + 8 + 8 + 8 + SUBNETWORK_ID_SIZE + 8 + HASH_SIZE + 8
}

pub open spec fn inputs_size_spec(inputs: Seq<TransactionInput>) -> int
    decreases inputs.len(),
{
    if inputs.len() == 0 {
        0
    } else {
        inputs_size_spec(inputs.drop_last()) + input_size_spec(inputs.last())
    }
}

pub open spec fn outputs_size_spec(outputs: Seq<TransactionOutput>) -> int
    decreases outputs.len(),
{
    if outputs.len() == 0 {
        0
    } else {
        outputs_size_spec(outputs.drop_last()) + output_size_spec(outputs.last())
    }
}

/// Script-public-key bytes of the outputs, each counted with its 2-byte version.
pub open spec fn script_public_keys_size_spec(outputs: Seq<TransactionOutput>) -> int
    decreases outputs.len(),
{
    if outputs.len() == 0 {
        0
    } else {
        script_public_keys_size_spec(outputs.drop_last()) + 2
            + outputs.last().script_public_key.script@.len()
    }
}

pub open spec fn sig_op_count_spec(inputs: Seq<TransactionInput>) -> int
    decreases inputs.len(),
{
    if inputs.len() == 0 {
        0
    } else {
        sig_op_count_spec(inputs.drop_last()) + inputs.last().sig_op_count
    }
}

/// Serialized size of a transaction with these inputs, outputs and payload length.
pub open spec fn tx_size_spec(
    inputs: Seq<TransactionInput>,
    outputs: Seq<TransactionOutput>,
    payload_len: int,
) -> int {
    blank_size_spec() + inputs_size_spec(inputs) + outputs_size_spec(outputs) + payload_len
}

/// The minimum relay fee for a transaction of the given mass.
pub open spec fn minimum_fee_spec(mass: int) -> int {
    let fee = mass * MINIMUM_RELAY_TRANSACTION_FEE / 1000;
    let fee = if fee < MINIMUM_RELAY_TRANSACTION_FEE {
        MINIMUM_RELAY_TRANSACTION_FEE as int
    } else {
        fee
    };
    if fee > MAX_SOMPI {
        MAX_SOMPI as int
    } else {
        fee
    }
}

/// Whether an output is dust: its script is too short, or its value is less
/// than three times the relay cost of creating and redeeming it.
pub open spec fn is_dust_spec(output: TransactionOutput) -> bool {
    if output.script_public_key.script@.len() < DUST_MIN_SCRIPT_LEN {
        true
    } else {
        let total_size = output_size_spec(output) + DUST_REDEEM_INPUT_SIZE;
        output.value * 1000 / (3 * total_size) < MINIMUM_RELAY_TRANSACTION_FEE
    }
}

proof fn lemma_inputs_size_step(inputs: Seq<TransactionInput>, i: int)
    requires
        0 <= i < inputs.len(),
    ensures
        inputs_size_spec(inputs.subrange(0, i + 1)) == inputs_size_spec(inputs.subrange(0, i))
            + input_size_spec(inputs[i]),
        sig_op_count_spec(inputs.subrange(0, i + 1)) == sig_op_count_spec(inputs.subrange(0, i))
            + inputs[i].sig_op_count,
{
    assert(inputs.subrange(0, i + 1).drop_last() == inputs.subrange(0, i));
}

proof fn lemma_outputs_size_step(outputs: Seq<TransactionOutput>, i: int)
    requires
        0 <= i < outputs.len(),
    ensures
        outputs_size_spec(outputs.subrange(0, i + 1)) == outputs_size_spec(outputs.subrange(0, i))
            + output_size_spec(outputs[i]),
        script_public_keys_size_spec(outputs.subrange(0, i + 1))
            == script_public_keys_size_spec(outputs.subrange(0, i)) + 2
            + outputs[i].script_public_key.script@.len(),
{
    assert(outputs.subrange(0, i + 1).drop_last() == outputs.subrange(0, i));
}

pub proof fn lemma_sums_nonnegative(inputs: Seq<TransactionInput>, outputs: Seq<TransactionOutput>)
    ensures
        inputs_size_spec(inputs) >= 0,
        sig_op_count_spec(inputs) >= 0,
        outputs_size_spec(outputs) >= 0,
        script_public_keys_size_spec(outputs) >= 0,
    decreases inputs.len() + outputs.len(),
{
    if inputs.len() > 0 {
        lemma_sums_nonnegative(inputs.drop_last(), outputs);
    }
    if outputs.len() > 0 {
        lemma_sums_nonnegative(inputs, outputs.drop_last());
    }
}

/// Returns the minimum transaction fee required for a transaction of the given
/// mass to be accepted into the mempool and relayed.
pub fn minimum_required_transaction_relay_fee(mass: u64) -> (r: u64)
    ensures
        r == minimum_fee_spec(mass as int),
{
    let wide: u128 = mass as u128 * MINIMUM_RELAY_TRANSACTION_FEE as u128 / 1000;
    let mut minimum_fee: u128 = wide;
    if minimum_fee < MINIMUM_RELAY_TRANSACTION_FEE as u128 {
        minimum_fee = MINIMUM_RELAY_TRANSACTION_FEE as u128;
    }
    if minimum_fee > MAX_SOMPI as u128 {
        minimum_fee = MAX_SOMPI as u128;
    }
    minimum_fee as u64
}

/// Whether the output is considered dust given the minimum relay fee: outputs
/// whose cost to spend exceeds a third of their value are dust.
pub fn is_transaction_output_dust(transaction_output: &TransactionOutput) -> (r: bool)
    ensures
        r == is_dust_spec(*transaction_output),
{
    let script_len = transaction_output.script_public_key.script.len();
    if script_len < DUST_MIN_SCRIPT_LEN {
        return true;
    }
    let total_serialized_size: u128 = 18 + script_len as u128 + DUST_REDEEM_INPUT_SIZE as u128;
    let value = transaction_output.value;
    match value.checked_mul(1000) {
        Some(value_1000) if total_serialized_size <= (u64::MAX / 3) as u128 => {
            let denominator: u64 = 3 * total_serialized_size as u64;
            value_1000 / denominator < MINIMUM_RELAY_TRANSACTION_FEE
        },
        _ => {
            value as u128 * 1000 / (3 * total_serialized_size) < MINIMUM_RELAY_TRANSACTION_FEE as u128
        },
    }
}

fn outpoint_estimated_serialized_size() -> (r: u64)
    ensures
        r == outpoint_size_spec(),
{
    let mut size: u64 = 0;
    size += HASH_SIZE;  // previous transaction id
    size += 4;  // index (u32)
    size
}

fn transaction_input_serialized_byte_size(input: &TransactionInput) -> (r: u64)
    ensures
        r == sat(input_size_spec(*input)),
{
    let mut size: u64 = outpoint_estimated_serialized_size();
    size += 8;  // length of the signature script (u64)
    size = sat_add(size, input.signature_script.len() as u64);
    size = sat_add(size, 8);  // sequence (u64)
    proof {
        lemma_sat_add(outpoint_size_spec() + 8 + input.signature_script@.len(), 8);
    }
    size
}

/// Serialized size of one output.
pub fn transaction_output_serialized_byte_size(output: &TransactionOutput) -> (r: u64)
    ensures
        r == sat(output_size_spec(*output)),
{
    let mut size: u64 = 0;
    size += 8;  // value (u64)
    size += 2;  // script public key version (u16)
    size += 8;  // length of the script public key (u64)
    sat_add(size, output.script_public_key.script.len() as u64)
}

/// Serialized size of a transaction without inputs, outputs or payload.
pub fn blank_transaction_serialized_byte_size() -> (r: u64)
    ensures
        r == blank_size_spec(),
{
    let mut size: u64 = 0;
    size += 2;  // version (u16)
    size += 8;  // number of inputs (u64)
    size += 8;  // number of outputs (u64)
    size += 8;  // lock time (u64)
    size += SUBNETWORK_ID_SIZE;
    size += 8;  // gas (u64)
    size += HASH_SIZE;  // payload hash
    size += 8;  // length of the payload (u64)
    size
}

fn inputs_serialized_size(inputs: &[TransactionInput]) -> (r: u64)
    ensures
        r == sat(inputs_size_spec(inputs@)),
{
    let mut total: u64 = 0;
    let mut i: usize = 0;
    while i < inputs.len()
        invariant
            i <= inputs@.len(),
            total == sat(inputs_size_spec(inputs@.subrange(0, i as int))),
        decreases inputs@.len() - i,
    {
        let size = transaction_input_serialized_byte_size(&inputs[i]);
        proof {
            lemma_inputs_size_step(inputs@, i as int);
            lemma_sums_nonnegative(inputs@.subrange(0, i as int), seq![]);
            lemma_sat_add(inputs_size_spec(inputs@.subrange(0, i as int)), input_size_spec(inputs@[i as int]));
        }
        total = sat_add(total, size);
        i += 1;
    }
    assert(inputs@.subrange(0, i as int) == inputs@);
    total
}

fn outputs_serialized_size(outputs: &[TransactionOutput]) -> (r: u64)
    ensures
        r == sat(outputs_size_spec(outputs@)),
{
    let mut total: u64 = 0;
    let mut i: usize = 0;
    while i < outputs.len()
        invariant
            i <= outputs@.len(),
            total == sat(outputs_size_spec(outputs@.subrange(0, i as int))),
        decreases outputs@.len() - i,
    {
        let size = transaction_output_serialized_byte_size(&outputs[i]);
        proof {
            lemma_outputs_size_step(outputs@, i as int);
            lemma_sums_nonnegative(seq![], outputs@.subrange(0, i as int));
            lemma_sat_add(outputs_size_spec(outputs@.subrange(0, i as int)), output_size_spec(outputs@[i as int]));
        }
        total = sat_add(total, size);
        i += 1;
    }
    assert(outputs@.subrange(0, i as int) == outputs@);
    total
}

fn script_public_keys_size(outputs: &[TransactionOutput]) -> (r: u64)
    ensures
        r == sat(script_public_keys_size_spec(outputs@)),
{
    let mut total: u64 = 0;
    let mut i: usize = 0;
    while i < outputs.len()
        invariant
            i <= outputs@.len(),
            total == sat(script_public_keys_size_spec(outputs@.subrange(0, i as int))),
        decreases outputs@.len() - i,
    {
        let len = outputs[i].script_public_key.script.len() as u64;
        proof {
            lemma_outputs_size_step(outputs@, i as int);
            lemma_sums_nonnegative(seq![], outputs@.subrange(0, i as int));
            lemma_sat_add(script_public_keys_size_spec(outputs@.subrange(0, i as int)), 2 + len);
            lemma_sat_add(script_public_keys_size_spec(outputs@.subrange(0, i as int)) + 2, len as int);
        }
        total = sat_add(sat_add(total, 2), len);
        i += 1;
    }
    assert(outputs@.subrange(0, i as int) == outputs@);
    total
}

fn sig_op_count_total(inputs: &[TransactionInput]) -> (r: u64)
    ensures
        r == sat(sig_op_count_spec(inputs@)),
{
    let mut total: u64 = 0;
    let mut i: usize = 0;
    while i < inputs.len()
        invariant
            i <= inputs@.len(),
            total == sat(sig_op_count_spec(inputs@.subrange(0, i as int))),
        decreases inputs@.len() - i,
    {
        proof {
            lemma_inputs_size_step(inputs@, i as int);
            lemma_sums_nonnegative(inputs@.subrange(0, i as int), seq![]);
            lemma_sat_add(sig_op_count_spec(inputs@.subrange(0, i as int)), inputs@[i as int].sig_op_count as int);
        }
        total = sat_add(total, inputs[i].sig_op_count as u64);
        i += 1;
    }
    assert(inputs@.subrange(0, i as int) == inputs@);
    total
}

/// Serialized size of a transaction, saturating at `u64::MAX`.
pub fn transaction_serialized_byte_size(tx: &Transaction) -> (r: u64)
    ensures
        r == sat(tx_size_spec(tx.inputs@, tx.outputs@, tx.payload@.len() as int)),
{
    let inputs_size = inputs_serialized_size(tx.inputs.as_slice());
    let outputs_size = outputs_serialized_size(tx.outputs.as_slice());
    let size = sat_add(blank_transaction_serialized_byte_size(), inputs_size);
    let size = sat_add(size, outputs_size);
    proof {
        lemma_sums_nonnegative(tx.inputs@, tx.outputs@);
        lemma_sat_add(inputs_size_spec(tx.inputs@), blank_size_spec());
        lemma_sat_add(blank_size_spec() + inputs_size_spec(tx.inputs@), outputs_size_spec(tx.outputs@));
        lemma_sat_add(
            blank_size_spec() + inputs_size_spec(tx.inputs@) + outputs_size_spec(tx.outputs@),
            tx.payload@.len() as int,
        );
    }
    sat_add(size, tx.payload.len() as u64)
}

/// Mass parameters of a network.
#[derive(Clone, Copy, Debug)]
pub struct Params {
    pub mass_per_tx_byte: u64,
    pub mass_per_script_pub_key_byte: u64,
    pub mass_per_sig_op: u64,
}

/// Converts the shape of a transaction into mass, and mass into a minimum fee.
/// Every mass it returns saturates at `u64::MAX`.
#[derive(Clone, Copy, Debug)]
pub struct MassCalculator {
    pub mass_per_tx_byte: u64,
    pub mass_per_script_pub_key_byte: u64,
    pub mass_per_sig_op: u64,
}

pub open spec fn max_one(m: u16) -> int {
    if m < 1 {
        1
    } else {
        m as int
    }
}

proof fn lemma_minimum_fee_of_sat(x: int)
    requires
        x >= 0,
    ensures
        minimum_fee_spec(sat(x)) == minimum_fee_spec(x),
{
    if x > u64::MAX {
        assert(x * 1000 / 1000 == x) by (nonlinear_arith);
        assert((u64::MAX as int) * 1000 / 1000 == u64::MAX as int) by (nonlinear_arith);
    }
}

impl MassCalculator {
    pub fn new(params: &Params) -> (r: MassCalculator)
        ensures
            r.mass_per_tx_byte == params.mass_per_tx_byte,
            r.mass_per_script_pub_key_byte == params.mass_per_script_pub_key_byte,
            r.mass_per_sig_op == params.mass_per_sig_op,
    {
        MassCalculator {
            mass_per_tx_byte: params.mass_per_tx_byte,
            mass_per_script_pub_key_byte: params.mass_per_script_pub_key_byte,
            mass_per_sig_op: params.mass_per_sig_op,
        }
    }

    /// Mass of a transaction: serialized size, script public key bytes and
    /// signature operations, each weighted by its parameter.
    pub open spec fn mass_spec(
        &self,
        inputs: Seq<TransactionInput>,
        outputs: Seq<TransactionOutput>,
        payload_len: int,
    ) -> int {
        tx_size_spec(inputs, outputs, payload_len) * self.mass_per_tx_byte
            + script_public_keys_size_spec(outputs) * self.mass_per_script_pub_key_byte
            + sig_op_count_spec(inputs) * self.mass_per_sig_op
    }

    /// Estimated mass of the signatures that `number_of_inputs` inputs will carry.
    pub open spec fn signature_mass_spec(&self, number_of_inputs: int, minimum_signatures: u16) -> int {
        SIGNATURE_SIZE * self.mass_per_tx_byte * max_one(minimum_signatures) * number_of_inputs
    }

    /// Minimum relay fee of a transaction, its signatures included.
    pub open spec fn relay_fee_spec(
        &self,
        inputs: Seq<TransactionInput>,
        outputs: Seq<TransactionOutput>,
        payload_len: int,
        minimum_signatures: u16,
    ) -> int {
        minimum_fee_spec(
            self.mass_spec(inputs, outputs, payload_len) + self.signature_mass_spec(
                inputs.len() as int,
                minimum_signatures,
            ),
        )
    }

    pub open spec fn tx_relay_fee_spec(&self, tx: Transaction, minimum_signatures: u16) -> int {
        self.relay_fee_spec(tx.inputs@, tx.outputs@, tx.payload@.len() as int, minimum_signatures)
    }

    pub proof fn lemma_mass_nonnegative(
        &self,
        inputs: Seq<TransactionInput>,
        outputs: Seq<TransactionOutput>,
        payload_len: int,
        minimum_signatures: u16,
    )
        requires
            payload_len >= 0,
        ensures
            tx_size_spec(inputs, outputs, payload_len) * self.mass_per_tx_byte >= 0,
            script_public_keys_size_spec(outputs) * self.mass_per_script_pub_key_byte >= 0,
            sig_op_count_spec(inputs) * self.mass_per_sig_op >= 0,
            self.mass_spec(inputs, outputs, payload_len) >= 0,
            self.signature_mass_spec(inputs.len() as int, minimum_signatures) >= 0,
    {
        lemma_sums_nonnegative(inputs, outputs);
        let a = tx_size_spec(inputs, outputs, payload_len);
        let b = script_public_keys_size_spec(outputs);
        let c = sig_op_count_spec(inputs);
        assert(a * self.mass_per_tx_byte >= 0) by (nonlinear_arith)
            requires
                a >= 0,
                self.mass_per_tx_byte >= 0,
        ;
        assert(b * self.mass_per_script_pub_key_byte >= 0) by (nonlinear_arith)
            requires
                b >= 0,
                self.mass_per_script_pub_key_byte >= 0,
        ;
        assert(c * self.mass_per_sig_op >= 0) by (nonlinear_arith)
            requires
                c >= 0,
                self.mass_per_sig_op >= 0,
        ;
        let s = SIGNATURE_SIZE * self.mass_per_tx_byte;
        let m = max_one(minimum_signatures);
        let n = inputs.len() as int;
        assert(s * m * n >= 0) by (nonlinear_arith)
            requires
                s >= 0,
                m >= 0,
                n >= 0,
        ;
    }

    /// Mass of the transaction, without its signatures.
    pub fn calc_mass_for_tx(&self, tx: &Transaction) -> (r: u64)
        ensures
            r == sat(self.mass_spec(tx.inputs@, tx.outputs@, tx.payload@.len() as int)),
    {
        let serialized = self.calc_serialized_mass_for_tx(tx);
        let outputs = self.calc_mass_for_outputs(tx.outputs.as_slice());
        let inputs = self.calc_mass_for_inputs(tx.inputs.as_slice());
        proof {
            let x = tx_size_spec(tx.inputs@, tx.outputs@, tx.payload@.len() as int) * self.mass_per_tx_byte;
            let y = script_public_keys_size_spec(tx.outputs@) * self.mass_per_script_pub_key_byte;
            let z = sig_op_count_spec(tx.inputs@) * self.mass_per_sig_op;
            self.lemma_mass_nonnegative(tx.inputs@, tx.outputs@, tx.payload@.len() as int, 0);
            lemma_sat_add(x, y);
            lemma_sat_add(x + y, z);
        }
        sat_add(sat_add(serialized, outputs), inputs)
    }

    /// Mass of a payload of the given size.
    pub fn calc_mass_for_payload(&self, payload_byte_size: usize) -> (r: u64)
        ensures
            r == sat(payload_byte_size * self.mass_per_tx_byte),
    {
        sat_mul(payload_byte_size as u64, self.mass_per_tx_byte)
    }

    /// Mass of the serialized size of a transaction without inputs, outputs or payload.
    pub fn blank_transaction_serialized_mass(&self) -> (r: u64)
        ensures
            r == sat(blank_size_spec() * self.mass_per_tx_byte),
    {
        sat_mul(blank_transaction_serialized_byte_size(), self.mass_per_tx_byte)
    }

    fn calc_serialized_mass_for_tx(&self, tx: &Transaction) -> (r: u64)
        ensures
            r == sat(tx_size_spec(tx.inputs@, tx.outputs@, tx.payload@.len() as int) * self.mass_per_tx_byte),
    {
        let size = transaction_serialized_byte_size(tx);
        proof {
            lemma_sums_nonnegative(tx.inputs@, tx.outputs@);
            lemma_sat_mul(tx_size_spec(tx.inputs@, tx.outputs@, tx.payload@.len() as int), self.mass_per_tx_byte as int);
        }
        sat_mul(size, self.mass_per_tx_byte)
    }

    /// Mass of the script public keys of the outputs.
    pub fn calc_mass_for_outputs(&self, outputs: &[TransactionOutput]) -> (r: u64)
        ensures
            r == sat(script_public_keys_size_spec(outputs@) * self.mass_per_script_pub_key_byte),
    {
        let total_script_public_key_size = script_public_keys_size(outputs);
        proof {
            lemma_sums_nonnegative(seq![], outputs@);
            lemma_sat_mul(script_public_keys_size_spec(outputs@), self.mass_per_script_pub_key_byte as int);
        }
        sat_mul(total_script_public_key_size, self.mass_per_script_pub_key_byte)
    }

    /// Mass of the signature operations of the inputs.
    pub fn calc_mass_for_inputs(&self, inputs: &[TransactionInput]) -> (r: u64)
        ensures
            r == sat(sig_op_count_spec(inputs@) * self.mass_per_sig_op),
    {
        let total_sig_ops = sig_op_count_total(inputs);
        proof {
            lemma_sums_nonnegative(inputs@, seq![]);
            lemma_sat_mul(sig_op_count_spec(inputs@), self.mass_per_sig_op as int);
        }
        sat_mul(total_sig_ops, self.mass_per_sig_op)
    }

    /// Mass of the script public key of one output.
    pub fn calc_mass_for_output(&self, output: &TransactionOutput) -> (r: u64)
        ensures
            r == sat(self.mass_per_script_pub_key_byte * (2 + output.script_public_key.script@.len())),
    {
        let len = sat_add(2, output.script_public_key.script.len() as u64);
        proof {
            lemma_sat_mul(2 + output.script_public_key.script@.len() as int, self.mass_per_script_pub_key_byte as int);
            assert(sat(len * self.mass_per_script_pub_key_byte) == sat(self.mass_per_script_pub_key_byte * len)) by (nonlinear_arith);
            assert((2 + output.script_public_key.script@.len()) * self.mass_per_script_pub_key_byte
                == self.mass_per_script_pub_key_byte * (2 + output.script_public_key.script@.len())) by (nonlinear_arith);
        }
        sat_mul(self.mass_per_script_pub_key_byte, len)
    }

    /// Mass of the signature operations of one input.
    pub fn calc_mass_for_input(&self, input: &TransactionInput) -> (r: u64)
        ensures
            r == sat(input.sig_op_count * self.mass_per_sig_op),
    {
        sat_mul(input.sig_op_count as u64, self.mass_per_sig_op)
    }

    /// Estimated mass of the signatures of one input.
    pub fn calc_signature_mass(&self, minimum_signatures: u16) -> (r: u64)
        ensures
            r == sat(self.signature_mass_spec(1, minimum_signatures)),
    {
        self.calc_signature_mass_for_inputs(1, minimum_signatures)
    }

    /// Estimated mass of the signatures of `number_of_inputs` inputs, each with
    /// at least one signature of `SIGNATURE_SIZE` bytes.
    pub fn calc_signature_mass_for_inputs(&self, number_of_inputs: usize, minimum_signatures: u16) -> (r: u64)
        ensures
            r == sat(self.signature_mass_spec(number_of_inputs as int, minimum_signatures)),
    {
        let minimum_signatures: u64 = if minimum_signatures < 1 {
            1
        } else {
            minimum_signatures as u64
        };
        let per_signature = sat_mul(SIGNATURE_SIZE, self.mass_per_tx_byte);
        let per_input = sat_mul(per_signature, minimum_signatures);
        proof {
            let s = SIGNATURE_SIZE * self.mass_per_tx_byte;
            assert(s >= 0) by (nonlinear_arith)
                requires
                    s == 66 * self.mass_per_tx_byte,
                    self.mass_per_tx_byte >= 0,
            ;
            assert(s * minimum_signatures >= 0) by (nonlinear_arith)
                requires
                    s >= 0,
                    minimum_signatures >= 0,
            ;
            lemma_sat_mul(s, minimum_signatures as int);
            lemma_sat_mul(s * minimum_signatures, number_of_inputs as int);
        }
        sat_mul(per_input, number_of_inputs as u64)
    }

    /// Minimum relay fee of the transaction, with the mass of its signatures
    /// estimated from `minimum_signatures`.
    pub fn calc_minium_tx_relay_fee(&self, tx: &Transaction, minimum_signatures: u16) -> (r: u64)
        ensures
            r == self.tx_relay_fee_spec(*tx, minimum_signatures),
    {
        let mass = self.calc_mass_for_tx(tx);
        let signature_mass = self.calc_signature_mass_for_inputs(tx.inputs.len(), minimum_signatures);
        proof {
            let x = self.mass_spec(tx.inputs@, tx.outputs@, tx.payload@.len() as int);
            let y = self.signature_mass_spec(tx.inputs@.len() as int, minimum_signatures);
            self.lemma_mass_nonnegative(tx.inputs@, tx.outputs@, tx.payload@.len() as int, minimum_signatures);
            lemma_sat_add(x, y);
            lemma_minimum_fee_of_sat(x + y);
        }
        minimum_required_transaction_relay_fee(sat_add(mass, signature_mass))
    }
}

/// Dust boundary: an output with a 34-byte pay-to-pubkey script takes 52
/// serialized bytes, 200 with its redeeming input, so it is dust exactly when
/// its value is below 600.
pub proof fn lemma_dust_boundary_pay_to_pubkey(output: TransactionOutput)
    requires
        output.script_public_key.script@.len() == 34,
    ensures
        is_dust_spec(output) <==> output.value < 600,
{
    let v = output.value as int;
    assert(output_size_spec(output) + DUST_REDEEM_INPUT_SIZE == 200);
    assert(v * 1000 / 600 < 1000 <==> v < 600) by (nonlinear_arith)
        requires
            v >= 0,
    ;
}

} // verus!
