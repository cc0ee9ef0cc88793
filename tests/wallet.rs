use wallet_core::account::{Estimate, ScanExtent};
use wallet_core::pending::PendingTransaction;
use wallet_core::storage::{
    AccountId, AccountKind, AccountSettings, AccountStorage, AccountStorageKey, AssocPrvKeyDataIds, LocalStoreInner,
    Location, PrvKeyDataId, Store,
};
use wallet_core::utxo::UtxoOrdering;
use wallet_core::{
    Address, Error, MutableTransaction, Prefix, ScriptPublicKey, Transaction, TransactionId, TransactionOutpoint,
    TransactionOutput, UtxoEntry, UtxoEntryReference, Version,
};

fn entry(tag: u64, amount: u64, owner: u8) -> UtxoEntryReference {
    UtxoEntryReference::new(UtxoEntry {
        address: Some(Address { prefix: Prefix::Mainnet, version: Version::PubKey, payload: vec![owner; 32] }),
        outpoint: TransactionOutpoint { transaction_id: TransactionId(tag, 0, 0, 0), index: 0 },
        amount,
        script_public_key: ScriptPublicKey { version: 0, script: vec![0; 34] },
        block_daa_score: 0,
        is_coinbase: false,
    })
}

fn mtx(inputs: Vec<UtxoEntryReference>, outputs: Vec<u64>) -> MutableTransaction {
    let tx = Transaction {
        version: 0,
        inputs: vec![],
        outputs: outputs
            .into_iter()
            .map(|v| TransactionOutput::new(v, ScriptPublicKey { version: 0, script: vec![0; 34] }))
            .collect(),
        lock_time: 0,
        subnetwork_id: [0; 20],
        gas: 0,
        payload: vec![],
    };
    MutableTransaction::new(tx, inputs)
}

#[test]
fn assoc_ids_contains() {
    let a = PrvKeyDataId(1);
    let b = PrvKeyDataId(2);
    assert!(!AssocPrvKeyDataIds::Unassigned.contains(&a));
    assert!(AssocPrvKeyDataIds::Single(a).contains(&a));
    assert!(!AssocPrvKeyDataIds::Single(a).contains(&b));
    let many = AssocPrvKeyDataIds::Multiple(vec![PrvKeyDataId(5), b]);
    assert!(many.contains(&b));
    assert!(!many.contains(&a));
}

#[test]
fn assoc_ids_from_list() {
    assert!(matches!(AssocPrvKeyDataIds::try_from_ids(Some(vec![])), Err(Error::AssocPrvKeyDataIdsEmpty)));
    assert!(matches!(AssocPrvKeyDataIds::try_from_ids(None), Ok(AssocPrvKeyDataIds::Unassigned)));
    assert!(AssocPrvKeyDataIds::try_from_ids(Some(vec![PrvKeyDataId(3)])).unwrap().contains(&PrvKeyDataId(3)));
}

#[test]
fn account_storage_accessors() {
    let storage = AccountStorage::new(
        AccountKind::Bip32,
        &AccountId(7),
        &AccountStorageKey(9),
        AssocPrvKeyDataIds::Single(PrvKeyDataId(1)),
        AccountSettings { name: Some("main".to_string()), meta: None },
        &[1, 2, 3],
    );
    assert_eq!(*storage.id(), AccountId(7));
    assert_eq!(*storage.storage_key(), AccountStorageKey(9));
    assert_eq!(storage.serialized(), &[1, 2, 3]);
    assert_eq!(storage.kind, AccountKind::Bip32);
}

#[test]
fn local_store_modified_flag() {
    let mut resident = LocalStoreInner::new(Store::Resident);
    resident.set_modified(true);
    assert!(!resident.is_modified());
    let mut stored = LocalStoreInner::new(Store::Storage(Location::new("/tmp/wallets")));
    assert!(!stored.is_modified());
    stored.set_modified(true);
    assert!(stored.is_modified());
    stored.set_modified(false);
    assert!(!stored.is_modified());
}

#[test]
fn location_keeps_folder() {
    assert_eq!(Location::new("~/.wallet").folder, "~/.wallet");
}

#[test]
fn defaults() {
    assert_eq!(ScanExtent::default(), ScanExtent::EmptyWindow);
    assert_eq!(UtxoOrdering::default(), UtxoOrdering::Unordered);
    let estimate = Estimate::default();
    assert_eq!(estimate.total_sompi, 0);
    assert_eq!(estimate.utxos, 0);
}

#[test]
fn pending_transaction_totals() {
    let inputs = vec![entry(1, 700, 4), entry(2, 600, 4), entry(3, 100, 5)];
    let pending = PendingTransaction::try_new(mtx(inputs, vec![1000, 250]), Some(1000), 250, false).unwrap();
    assert_eq!(pending.aggregate_input_value(), 1400);
    assert_eq!(pending.aggregate_output_value(), 1250);
    assert_eq!(pending.fees(), 150);
    assert_eq!(pending.payment_value(), Some(1000));
    assert_eq!(pending.change_value(), 250);
    assert_eq!(pending.kind(), "final");
    assert_eq!(pending.addresses().len(), 2);
    assert_eq!(pending.get_utxo_entries().len(), 3);
    assert_eq!(pending.transaction().outputs.len(), 2);
}

#[test]
fn pending_transaction_rejects_overspend() {
    let inputs = vec![entry(1, 100, 4)];
    assert!(matches!(PendingTransaction::try_new(mtx(inputs, vec![101]), None, 0, true), Err(Error::InvalidArgument)));
    let batch = PendingTransaction::try_new(mtx(vec![entry(1, 100, 4)], vec![90]), None, 0, true).unwrap();
    assert_eq!(batch.kind(), "batch");
}

#[test]
fn account_kind_names() {
    assert_eq!(AccountKind::from_str("BIP32"), Ok(AccountKind::Bip32));
    assert_eq!(AccountKind::from_str("MultiSig"), Ok(AccountKind::MultiSig));
    assert_eq!(AccountKind::from_str("legacy"), Ok(AccountKind::Legacy));
    assert_eq!(AccountKind::from_str("other"), Err(Error::InvalidAccountKind));
    assert_eq!(AccountKind::from_lowercase_name(&"bip32".to_string()), Ok(AccountKind::Bip32));
    assert_eq!(AccountKind::from_lowercase_name(&"BIP32".to_string()), Err(Error::InvalidAccountKind));
    assert_eq!(AccountKind::Legacy.to_string(), "legacy");
    assert_eq!(AccountKind::MultiSig.to_string(), "multisig");
}

#[test]
fn assoc_ids_conversions() {
    let single = AssocPrvKeyDataIds::Single(PrvKeyDataId(4));
    assert_eq!(single.try_single(), Ok(PrvKeyDataId(4)));
    assert_eq!(single.clone().try_multiple(), Err(Error::UnexpectedAssocPrvKeyDataIds));
    assert_eq!(single.try_optional(), Err(Error::UnexpectedAssocPrvKeyDataIds));
    let many = AssocPrvKeyDataIds::Multiple(vec![PrvKeyDataId(1), PrvKeyDataId(2)]);
    assert_eq!(many.try_single(), Err(Error::UnexpectedAssocPrvKeyDataIds));
    assert_eq!(many.clone().try_multiple(), Ok(vec![PrvKeyDataId(1), PrvKeyDataId(2)]));
    assert_eq!(many.try_optional(), Ok(Some(vec![PrvKeyDataId(1), PrvKeyDataId(2)])));
    assert_eq!(AssocPrvKeyDataIds::Unassigned.try_optional(), Ok(None));
}
