use wallet_core::{
    adjust_transaction_for_fee, create_transaction, Address, Error, MassCalculator, MutableTransaction, Params,
    PaymentOutput, PaymentOutputs, Prefix, ScriptPublicKey, Transaction, TransactionId, TransactionOutpoint,
    TransactionOutput, UtxoEntry, UtxoEntryReference, UtxoSet, Version,
};

fn address(byte: u8) -> Address {
    Address { prefix: Prefix::Mainnet, version: Version::PubKey, payload: vec![byte; 32] }
}

fn p2pk(byte: u8) -> ScriptPublicKey {
    let mut script = vec![0x20];
    script.extend_from_slice(&[byte; 32]);
    script.push(0xac);
    ScriptPublicKey { version: 0, script }
}

fn entry(tag: u64, amount: u64) -> UtxoEntryReference {
    UtxoEntryReference::new(UtxoEntry {
        address: Some(address(tag as u8)),
        outpoint: TransactionOutpoint { transaction_id: TransactionId(tag, 0, 0, 0), index: 1 },
        amount,
        script_public_key: p2pk(tag as u8),
        block_daa_score: 0,
        is_coinbase: false,
    })
}

fn mainnet() -> MassCalculator {
    MassCalculator::new(&Params { mass_per_tx_byte: 1, mass_per_script_pub_key_byte: 10, mass_per_sig_op: 1000 })
}

fn one_input_tx(input: u64, outputs: Vec<TransactionOutput>) -> MutableTransaction {
    let e = entry(1, input);
    let tx = Transaction {
        version: 0,
        inputs: vec![wallet_core::TransactionInput {
            previous_outpoint: e.id(),
            signature_script: vec![],
            sequence: 0,
            sig_op_count: 1,
        }],
        outputs,
        lock_time: 0,
        subnetwork_id: [0; 20],
        gas: 0,
        payload: vec![],
    };
    MutableTransaction::new(tx, vec![e])
}

fn output_total(mtx: &MutableTransaction) -> u64 {
    mtx.tx.outputs.iter().map(|o| o.value).sum()
}

#[test]
fn fee_covers_minimum_relay_fee() {
    let calc = mainnet();
    let mut mtx = one_input_tx(1_000_000, vec![TransactionOutput::new(500_000, p2pk(2))]);
    assert_eq!(adjust_transaction_for_fee(&mut mtx, &address(3), &calc, 1, Some(0)), Ok(true));
    let fee = 1_000_000 - output_total(&mtx);
    assert!(fee >= calc.calc_minium_tx_relay_fee(&mtx.tx, 1));
    // size 250, script bytes 72, one sig op, one estimated signature
    assert_eq!(fee, 250 + 720 + 1000 + 66);
    assert_eq!(mtx.tx.outputs.len(), 2);
    assert_eq!(mtx.tx.outputs[1].value, 500_000 - 2036);
    assert_eq!(mtx.tx.outputs[1].script_public_key.script, p2pk(3).script);
}

#[test]
fn priority_fee_above_inputs_is_invalid() {
    let calc = mainnet();
    let mut mtx = one_input_tx(1000, vec![]);
    assert_eq!(adjust_transaction_for_fee(&mut mtx, &address(3), &calc, 1, Some(1001)), Err(Error::InvalidArgument));
    assert!(mtx.tx.outputs.is_empty());
}

#[test]
fn outputs_above_inputs_are_insufficient() {
    let calc = mainnet();
    let mut mtx = one_input_tx(1000, vec![TransactionOutput::new(1001, p2pk(2))]);
    assert_eq!(adjust_transaction_for_fee(&mut mtx, &address(3), &calc, 1, None), Err(Error::InsufficientFunds));
    assert_eq!(mtx.tx.outputs.len(), 1);
}

#[test]
fn change_too_small_for_fee_is_insufficient() {
    let calc = mainnet();
    let mut mtx = one_input_tx(10_000, vec![TransactionOutput::new(9_000, p2pk(2))]);
    assert_eq!(adjust_transaction_for_fee(&mut mtx, &address(3), &calc, 1, None), Err(Error::InsufficientFunds));
    assert_eq!(mtx.tx.outputs.len(), 1);
}

#[test]
fn dust_change_without_room_for_fee_fails() {
    let calc = mainnet();
    // change 500 is dust and is not added; 500 does not cover the fee
    let mut mtx = one_input_tx(10_000, vec![TransactionOutput::new(9_500, p2pk(2))]);
    assert_eq!(adjust_transaction_for_fee(&mut mtx, &address(3), &calc, 1, None), Err(Error::InsufficientFunds));
    assert_eq!(mtx.tx.outputs.len(), 1);
}

#[test]
fn change_shrunk_to_dust_is_dropped() {
    let calc = mainnet();
    // change 2_500 is added; less the 2_036 shortfall it is 464, which is dust
    let mut mtx = one_input_tx(10_000, vec![TransactionOutput::new(7_500, p2pk(2))]);
    assert_eq!(adjust_transaction_for_fee(&mut mtx, &address(3), &calc, 1, Some(0)), Ok(true));
    assert_eq!(mtx.tx.outputs.len(), 1);
    assert_eq!(output_total(&mtx), 7_500);
}

#[test]
fn malformed_change_address_is_invalid() {
    let calc = mainnet();
    let bad = Address { prefix: Prefix::Mainnet, version: Version::PubKeyECDSA, payload: vec![1; 32] };
    let mut mtx = one_input_tx(1_000_000, vec![TransactionOutput::new(500_000, p2pk(2))]);
    assert_eq!(adjust_transaction_for_fee(&mut mtx, &bad, &calc, 1, None), Err(Error::InvalidArgument));
}

#[test]
fn create_transaction_end_to_end() {
    let calc = mainnet();
    let mut set = UtxoSet::new();
    set.insert(vec![entry(1, 400_000), entry(2, 700_000), entry(3, 50)]);
    let mut ctx = set.create_selection_context();
    ctx.select(600_000).unwrap();
    let payments = PaymentOutputs { outputs: vec![PaymentOutput { address: address(9), amount: 500_000 }] };
    let mtx = create_transaction(1, &ctx, &payments, &address(8), &calc, 1, None, Some(vec![1, 2, 3])).unwrap();
    assert_eq!(mtx.tx.inputs.len(), 3);
    assert_eq!(mtx.tx.inputs[2].sequence, 2);
    assert_eq!(mtx.tx.inputs[0].previous_outpoint, entry(3, 50).id());
    assert_eq!(mtx.tx.outputs[0].value, 500_000);
    assert_eq!(mtx.tx.outputs[0].script_public_key.script, p2pk(9).script);
    assert_eq!(mtx.tx.outputs[1].script_public_key.script, p2pk(8).script);
    let fee = 1_100_050 - output_total(&mtx);
    assert!(fee >= calc.calc_minium_tx_relay_fee(&mtx.tx, 1));
    assert_eq!(mtx.tx.payload, vec![1, 2, 3]);
    ctx.commit(&mut set, 0).unwrap();
    assert_eq!(set.calculate_balance(), 0);
}

#[test]
fn script_hash_and_ecdsa_scripts() {
    let calc = mainnet();
    let mut set = UtxoSet::new();
    set.insert(vec![entry(1, 1_000_000)]);
    let mut ctx = set.create_selection_context();
    ctx.select(1).unwrap();
    let sh = Address { prefix: Prefix::Testnet, version: Version::ScriptHash, payload: vec![5; 32] };
    let ecdsa = Address { prefix: Prefix::Testnet, version: Version::PubKeyECDSA, payload: vec![6; 33] };
    let payments = PaymentOutputs { outputs: vec![PaymentOutput { address: sh, amount: 1000 }] };
    let mtx = create_transaction(1, &ctx, &payments, &ecdsa, &calc, 1, None, None).unwrap();
    let mut expected = vec![0xaa, 0x20];
    expected.extend_from_slice(&[5; 32]);
    expected.push(0x87);
    assert_eq!(mtx.tx.outputs[0].script_public_key.script, expected);
    let change = &mtx.tx.outputs[1].script_public_key.script;
    assert_eq!(change.len(), 35);
    assert_eq!(change[0], 0x21);
    assert_eq!(change[34], 0xab);
}

#[test]
fn create_rejects_bad_payment_and_priority_fee() {
    let calc = mainnet();
    let mut set = UtxoSet::new();
    set.insert(vec![entry(1, 1000)]);
    let mut ctx = set.create_selection_context();
    ctx.select(1).unwrap();
    let bad = Address { prefix: Prefix::Mainnet, version: Version::PubKey, payload: vec![1; 3] };
    let payments = PaymentOutputs { outputs: vec![PaymentOutput { address: bad, amount: 10 }] };
    assert!(matches!(
        create_transaction(1, &ctx, &payments, &address(2), &calc, 1, None, None),
        Err(Error::InvalidArgument)
    ));
    let payments = PaymentOutputs { outputs: vec![] };
    assert!(matches!(
        create_transaction(1, &ctx, &payments, &address(2), &calc, 1, Some(1001), None),
        Err(Error::InvalidArgument)
    ));
}
