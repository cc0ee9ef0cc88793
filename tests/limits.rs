use wallet_core::limits::{
    blank_transaction_serialized_byte_size, is_transaction_output_dust, minimum_required_transaction_relay_fee,
    transaction_output_serialized_byte_size, transaction_serialized_byte_size, MAX_SOMPI,
};
use wallet_core::{
    MassCalculator, Params, ScriptPublicKey, Transaction, TransactionId, TransactionInput, TransactionOutpoint,
    TransactionOutput,
};

fn output(value: u64, script_len: usize) -> TransactionOutput {
    TransactionOutput::new(value, ScriptPublicKey { version: 0, script: vec![1; script_len] })
}

fn mainnet() -> MassCalculator {
    MassCalculator::new(&Params { mass_per_tx_byte: 1, mass_per_script_pub_key_byte: 10, mass_per_sig_op: 1000 })
}

fn sample_tx() -> Transaction {
    Transaction {
        version: 0,
        inputs: vec![TransactionInput {
            previous_outpoint: TransactionOutpoint { transaction_id: TransactionId(1, 2, 3, 4), index: 0 },
            signature_script: vec![0; 10],
            sequence: 0,
            sig_op_count: 1,
        }],
        outputs: vec![output(500, 34), output(700, 35)],
        lock_time: 0,
        subnetwork_id: [0; 20],
        gas: 0,
        payload: vec![9; 5],
    }
}

#[test]
fn dust_boundary_for_pay_to_pubkey() {
    assert_eq!(transaction_output_serialized_byte_size(&output(0, 34)), 52);
    assert!(is_transaction_output_dust(&output(545, 34)));
    assert!(is_transaction_output_dust(&output(546, 34)));
    assert!(is_transaction_output_dust(&output(599, 34)));
    assert!(!is_transaction_output_dust(&output(600, 34)));
}

#[test]
fn dust_with_largest_value() {
    assert!(!is_transaction_output_dust(&output(u64::MAX, 34)));
    assert!(!is_transaction_output_dust(&output(u64::MAX / 1000 + 1, 34)));
    assert!(is_transaction_output_dust(&output(u64::MAX, 32)));
}

#[test]
fn short_script_is_always_dust() {
    assert!(is_transaction_output_dust(&output(1_000_000_000, 0)));
    assert!(!is_transaction_output_dust(&output(1_000_000_000, 33)));
}

#[test]
fn minimum_fee_formula() {
    assert_eq!(minimum_required_transaction_relay_fee(0), 1000);
    assert_eq!(minimum_required_transaction_relay_fee(500), 1000);
    assert_eq!(minimum_required_transaction_relay_fee(2036), 2036);
    assert_eq!(minimum_required_transaction_relay_fee(u64::MAX), MAX_SOMPI);
}

#[test]
fn serialized_sizes() {
    assert_eq!(blank_transaction_serialized_byte_size(), 94);
    // 94 + input (36 + 8 + 10 + 8) + outputs (52 + 53) + payload 5
    assert_eq!(transaction_serialized_byte_size(&sample_tx()), 94 + 62 + 105 + 5);
}

#[test]
fn mass_of_transaction() {
    let calc = mainnet();
    let tx = sample_tx();
    assert_eq!(calc.calc_mass_for_outputs(&tx.outputs), (36 + 37) * 10);
    assert_eq!(calc.calc_mass_for_inputs(&tx.inputs), 1000);
    assert_eq!(calc.calc_mass_for_tx(&tx), 266 + 730 + 1000);
    assert_eq!(calc.calc_signature_mass_for_inputs(3, 0), 66 * 3);
    assert_eq!(calc.calc_signature_mass_for_inputs(3, 2), 66 * 2 * 3);
    assert_eq!(calc.calc_signature_mass(1), 66);
    assert_eq!(calc.calc_minium_tx_relay_fee(&tx, 1), 1996 + 66);
    assert_eq!(calc.calc_mass_for_payload(10), 10);
    assert_eq!(calc.blank_transaction_serialized_mass(), 94);
    assert_eq!(calc.calc_mass_for_output(&tx.outputs[0]), 360);
    assert_eq!(calc.calc_mass_for_input(&tx.inputs[0]), 1000);
}

#[test]
fn mass_saturates() {
    let calc = MassCalculator::new(&Params {
        mass_per_tx_byte: u64::MAX,
        mass_per_script_pub_key_byte: 0,
        mass_per_sig_op: 0,
    });
    assert_eq!(calc.calc_mass_for_tx(&sample_tx()), u64::MAX);
    assert_eq!(calc.calc_minium_tx_relay_fee(&sample_tx(), 1), MAX_SOMPI);
}
