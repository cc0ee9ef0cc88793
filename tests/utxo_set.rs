use wallet_core::{
    Address, Error, Prefix, ScriptPublicKey, TransactionId, TransactionOutpoint, UtxoEntry, UtxoEntryReference,
    UtxoSet, Version,
};

fn address(byte: u8) -> Address {
    Address { prefix: Prefix::Mainnet, version: Version::PubKey, payload: vec![byte; 32] }
}

fn entry(tag: u64, amount: u64) -> UtxoEntryReference {
    entry_at(tag, amount, Some(address(tag as u8)))
}

fn entry_at(tag: u64, amount: u64, owner: Option<Address>) -> UtxoEntryReference {
    let mut script = vec![0x20];
    script.extend_from_slice(&[tag as u8; 32]);
    script.push(0xac);
    UtxoEntryReference::new(UtxoEntry {
        address: owner,
        outpoint: TransactionOutpoint { transaction_id: TransactionId(tag, 0, 0, 0), index: 0 },
        amount,
        script_public_key: ScriptPublicKey { version: 0, script },
        block_daa_score: 10,
        is_coinbase: false,
    })
}

fn available_amounts(set: &UtxoSet) -> Vec<u64> {
    set.available_entries().iter().map(|e| e.amount()).collect()
}

#[test]
fn selection_takes_smallest_first() {
    let mut set = UtxoSet::new();
    set.insert(vec![entry(3, 1000), entry(1, 100), entry(2, 200)]);
    assert_eq!(available_amounts(&set), vec![100, 200, 1000]);

    let mut ctx = set.create_selection_context();
    let picked = ctx.select(250).unwrap();
    assert_eq!(picked.iter().map(|e| e.amount()).collect::<Vec<_>>(), vec![100, 200]);
    assert_eq!(ctx.selected_amount(), 300);

    let mut ctx = set.create_selection_context();
    assert!(matches!(ctx.select(1500), Err(Error::InsufficientFunds)));
    assert_eq!(ctx.selected_amount(), 0);
    assert!(ctx.selected_entries().is_empty());
    assert_eq!(set.calculate_balance(), 1300);
    assert_eq!(available_amounts(&set), vec![100, 200, 1000]);
}

#[test]
fn select_zero_takes_nothing() {
    let mut set = UtxoSet::new();
    set.insert(vec![entry(1, 5)]);
    let mut ctx = set.create_selection_context();
    assert!(ctx.select(0).unwrap().is_empty());
}

#[test]
fn insert_is_idempotent() {
    let mut set = UtxoSet::new();
    set.insert(vec![entry(1, 100)]);
    assert_eq!(set.calculate_balance(), 100);
    set.insert(vec![entry(1, 100)]);
    set.extend(&[entry(1, 100)]);
    assert_eq!(set.calculate_balance(), 100);
    assert_eq!(set.available_entries().len(), 1);
}

#[test]
fn equal_amounts_keep_arrival_order() {
    let mut set = UtxoSet::new();
    set.insert(vec![entry(1, 50), entry(2, 50), entry(3, 10)]);
    set.extend(&[entry(4, 50)]);
    let ids: Vec<u64> = set.available_entries().iter().map(|e| e.id().transaction_id.0).collect();
    assert_eq!(ids, vec![3, 1, 2, 4]);
}

#[test]
fn insert_refuses_total_past_u64() {
    let mut set = UtxoSet::new();
    set.insert(vec![entry(1, u64::MAX - 10), entry(2, 11), entry(3, 10)]);
    assert_eq!(set.calculate_balance(), u64::MAX);
    assert!(!set.contains(&entry(2, 11).id()));
}

#[test]
fn balance_excludes_reserved_outputs() {
    let mut set = UtxoSet::new();
    set.insert(vec![entry(1, 100), entry(2, 200), entry(3, 1000)]);
    let mut ctx = set.create_selection_context();
    ctx.select(250).unwrap();
    ctx.commit(&mut set, 1_000_000).unwrap();
    assert_eq!(set.calculate_balance(), 1000);
    assert!(set.contains(&entry(1, 100).id()));
    set.extend(&[entry(4, 7)]);
    assert_eq!(set.calculate_balance(), 1007);
    assert!(set.remove(vec![entry(2, 200).id(), entry(4, 7).id()]));
    assert_eq!(set.calculate_balance(), 1000);
    set.recover_consumed_utxos(1_000_000 + 60_001);
    assert_eq!(set.calculate_balance(), 1100);
    assert!(!set.contains(&entry(2, 200).id()));
}

#[test]
fn commit_then_recover_after_timeout() {
    let mut set = UtxoSet::new();
    set.insert(vec![entry(1, 100), entry(2, 200), entry(3, 1000)]);
    let mut ctx = set.create_selection_context();
    ctx.select(250).unwrap();
    ctx.commit(&mut set, 5_000_000).unwrap();
    assert_eq!(available_amounts(&set), vec![1000]);
    assert!(set.contains(&entry(1, 100).id()));
    assert!(set.contains(&entry(2, 200).id()));

    set.recover_consumed_utxos(5_000_000 + 30_000);
    assert_eq!(available_amounts(&set), vec![1000]);
    set.recover_consumed_utxos(5_000_000 + 60_000);
    assert_eq!(available_amounts(&set), vec![1000]);

    set.recover_consumed_utxos(5_000_000 + 60_001);
    assert_eq!(available_amounts(&set), vec![100, 200, 1000]);
    assert_eq!(set.calculate_balance(), 1300);
}

#[test]
fn remove_reports_whether_anything_went() {
    let mut set = UtxoSet::new();
    set.insert(vec![entry(1, 100), entry(2, 200)]);
    assert!(!set.remove(vec![entry(9, 1).id()]));
    assert!(set.remove(vec![entry(1, 100).id()]));
    assert_eq!(available_amounts(&set), vec![200]);
    set.clear();
    assert_eq!(set.calculate_balance(), 0);
}

#[test]
fn removed_reserved_output_does_not_come_back() {
    let mut set = UtxoSet::new();
    set.insert(vec![entry(1, 100), entry(2, 200)]);
    let mut ctx = set.create_selection_context();
    ctx.select(100).unwrap();
    ctx.commit(&mut set, 0).unwrap();
    assert!(set.remove(vec![entry(1, 100).id()]));
    set.recover_consumed_utxos(u64::MAX);
    assert_eq!(available_amounts(&set), vec![200]);
}

#[test]
fn addresses_are_distinct() {
    let mut set = UtxoSet::new();
    set.insert(vec![
        entry_at(1, 10, Some(address(7))),
        entry_at(2, 20, Some(address(7))),
        entry_at(3, 30, None),
        entry_at(4, 40, Some(address(8))),
    ]);
    let mut ctx = set.create_selection_context();
    ctx.select(100).unwrap();
    let addresses = ctx.addresses();
    assert_eq!(addresses.len(), 2);
    assert_eq!(addresses[0].payload, vec![7; 32]);
    assert_eq!(addresses[1].payload, vec![8; 32]);
}

#[test]
fn iterator_walks_snapshot_in_order() {
    let mut set = UtxoSet::new();
    set.insert(vec![entry(1, 30), entry(2, 10)]);
    let mut it = wallet_core::UtxoIterator::new(&set);
    assert_eq!(it.next().unwrap().amount(), 10);
    assert_eq!(it.next().unwrap().amount(), 30);
    assert!(it.next().is_none());
}
