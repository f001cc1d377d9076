use shielded_ledger::errors::LedgerError;
use shielded_ledger::field::FieldElement;
use shielded_ledger::ledger::Blockchain;
use shielded_ledger::transaction::Transaction;

fn fe(v: u64) -> FieldElement {
    FieldElement::from_u64(v)
}

#[test]
fn nullifier_recorded_once() {
    let mut chain = Blockchain::new();
    let sn = fe(77);
    assert_eq!(chain.append_transaction(fe(1000), sn), Ok(()));
    // a different root makes no difference: the serial number decides
    assert_eq!(
        chain.append_transaction(fe(2000), sn),
        Err(LedgerError::DuplicateSerialNumber { serial_number: sn })
    );
    let dumped = chain.dump_transactions();
    assert_eq!(dumped.len(), 1);
    assert_eq!(dumped[0], (sn, fe(1000)));
}

#[test]
fn distinct_nullifiers_accumulate() {
    let mut chain = Blockchain::new();
    assert_eq!(chain.append_transaction(fe(10), fe(1)), Ok(()));
    assert_eq!(chain.append_transaction(fe(20), fe(2)), Ok(()));
    assert_eq!(chain.append_transaction(fe(30), fe(3)), Ok(()));
    let dumped = chain.dump_transactions();
    assert_eq!(dumped, vec![(fe(1), fe(10)), (fe(2), fe(20)), (fe(3), fe(30))]);
}

#[test]
fn default_ledger_is_empty() {
    let chain = Blockchain::default();
    assert!(chain.dump_transactions().is_empty());
}

#[test]
fn transaction_flow_into_ledger() {
    let t = Transaction::new(fe(1), fe(30), fe(11), fe(22), fe(33));
    let root = t.root().unwrap();
    let sn = t.serial_number();
    let mut chain = Blockchain::new();
    assert_eq!(chain.append_transaction(root, sn), Ok(()));
    // replaying the same transaction is a double spend
    assert_eq!(
        chain.append_transaction(root, sn),
        Err(LedgerError::DuplicateSerialNumber { serial_number: sn })
    );
}
