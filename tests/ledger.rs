use contract_demo::account::AccountId;
use contract_demo::ids::IdAllocator;
use contract_demo::ledger::{royalty_amount, Ledger, LedgerError, Royalty, TransferItem, TRANSFERABLE};

fn acct(b: u8) -> AccountId {
    AccountId([b; 32])
}

fn no_royalty(owner: AccountId) -> Royalty {
    Royalty { recipient: owner, bps: 0 }
}

fn ledger_with_class(owner: AccountId, properties: u8) -> Ledger {
    let mut l = Ledger::new();
    l.create_class(owner, vec![], b"c".to_vec(), b"d".to_vec(), properties, no_royalty(owner), 1).unwrap();
    l
}

#[test]
fn example_create_mint_transfer() {
    let a = acct(0xA);
    let b = acct(0xB);
    let mut l = Ledger::new();
    let (owner, class_id) =
        l.create_class(a, vec![], b"art".to_vec(), b"prints".to_vec(), TRANSFERABLE, no_royalty(a), 1).unwrap();
    assert!(owner.same_as(&a));
    assert_eq!(class_id, 1);
    let (class_owner, beneficiary, cid, token_id, quantity) = l.mint(a, 1, vec![], 100, None, 2).unwrap();
    assert!(class_owner.same_as(&a));
    assert!(beneficiary.same_as(&a));
    assert_eq!((cid, token_id, quantity), (1, 1, 100));
    assert_eq!(l.balance(1, 1, a), 100);
    assert_eq!(l.transfer(a, b, 1, 1, 40), Ok(()));
    assert_eq!(l.balance(1, 1, a), 60);
    assert_eq!(l.balance(1, 1, b), 40);
    assert_eq!(l.transfer(a, b, 1, 1, 1000), Err(LedgerError::InsufficientBalance));
    assert_eq!(l.balance(1, 1, a), 60);
    assert_eq!(l.balance(1, 1, b), 40);
}

#[test]
fn overdraft_refused_and_balances_kept() {
    let a = acct(1);
    let b = acct(2);
    let mut l = ledger_with_class(a, TRANSFERABLE);
    l.mint(a, 1, vec![], 10, None, 2).unwrap();
    assert_eq!(l.transfer(a, b, 1, 1, 11), Err(LedgerError::InsufficientBalance));
    assert_eq!(l.transfer(b, a, 1, 1, 1), Err(LedgerError::InsufficientBalance));
    assert_eq!(l.balance(1, 1, a), 10);
    assert_eq!(l.balance(1, 1, b), 0);
    assert_eq!(l.transfer(a, b, 1, 1, 10), Ok(()));
    assert_eq!(l.balance(1, 1, a), 0);
    assert_eq!(l.balance(1, 1, b), 10);
}

#[test]
fn batch_failing_at_third_item_changes_nothing() {
    let a = acct(1);
    let b = acct(2);
    let mut l = ledger_with_class(a, TRANSFERABLE);
    l.mint(a, 1, vec![], 50, None, 2).unwrap();
    l.mint(a, 1, vec![], 5, None, 2).unwrap();
    let items: Vec<TransferItem> = vec![(1, 1, 20), (1, 2, 5), (1, 1, 31), (1, 1, 1), (1, 2, 0)];
    assert_eq!(l.transfer_all(a, b, &items), Err(LedgerError::InsufficientBalance));
    assert_eq!(l.balance(1, 1, a), 50);
    assert_eq!(l.balance(1, 2, a), 5);
    assert_eq!(l.balance(1, 1, b), 0);
    assert_eq!(l.balance(1, 2, b), 0);
}

#[test]
fn batch_applies_items_in_order() {
    let a = acct(1);
    let b = acct(2);
    let mut l = ledger_with_class(a, TRANSFERABLE);
    l.mint(a, 1, vec![], 50, None, 2).unwrap();
    l.mint(a, 1, vec![], 5, None, 2).unwrap();
    let items: Vec<TransferItem> = vec![(1, 1, 20), (1, 2, 5), (1, 1, 30)];
    assert_eq!(l.transfer_all(a, b, &items), Ok(()));
    assert_eq!(l.balance(1, 1, a), 0);
    assert_eq!(l.balance(1, 2, a), 0);
    assert_eq!(l.balance(1, 1, b), 50);
    assert_eq!(l.balance(1, 2, b), 5);
}

#[test]
fn batch_reports_first_refusal() {
    let a = acct(1);
    let b = acct(2);
    let mut l = ledger_with_class(a, TRANSFERABLE);
    l.mint(a, 1, vec![], 50, None, 2).unwrap();
    let items: Vec<TransferItem> = vec![(1, 1, 1), (7, 1, 1), (1, 1, 0)];
    assert_eq!(l.transfer_all(a, b, &items), Err(LedgerError::ClassNotFound));
    let items: Vec<TransferItem> = vec![(1, 1, 1), (1, 1, 0), (7, 1, 1)];
    assert_eq!(l.transfer_all(a, b, &items), Err(LedgerError::InvalidQuantity));
    assert_eq!(l.balance(1, 1, a), 50);
}

#[test]
fn batch_to_self_checks_against_unchanged_balance() {
    let a = acct(1);
    let mut l = ledger_with_class(a, TRANSFERABLE);
    l.mint(a, 1, vec![], 10, None, 2).unwrap();
    let items: Vec<TransferItem> = vec![(1, 1, 10), (1, 1, 10)];
    assert_eq!(l.transfer_all(a, a, &items), Ok(()));
    assert_eq!(l.balance(1, 1, a), 10);
}

#[test]
fn empty_batch_succeeds() {
    let a = acct(1);
    let mut l = ledger_with_class(a, TRANSFERABLE);
    assert_eq!(l.transfer_all(a, acct(2), &Vec::new()), Ok(()));
}

#[test]
fn mint_by_stranger_unauthorized() {
    let a = acct(1);
    let mut l = ledger_with_class(a, TRANSFERABLE);
    assert_eq!(l.mint(acct(2), 1, vec![], 10, None, 2), Err(LedgerError::Unauthorized));
    assert_eq!(l.mint(acct(2), 1, vec![], 0, None, 2), Err(LedgerError::Unauthorized));
    assert_eq!(l.get_token(1, 1), (vec![], 0, 0));
}

#[test]
fn mint_zero_invalid_quantity() {
    let a = acct(1);
    let mut l = ledger_with_class(a, TRANSFERABLE);
    assert_eq!(l.mint(a, 1, vec![], 0, None, 2), Err(LedgerError::InvalidQuantity));
    let (_, _, _, token_id, _) = l.mint(a, 1, vec![], 1, None, 2).unwrap();
    assert_eq!(token_id, 1);
}

#[test]
fn mint_into_unknown_class() {
    let mut l = Ledger::new();
    assert_eq!(l.mint(acct(1), 1, vec![], 5, None, 0), Err(LedgerError::ClassNotFound));
    assert_eq!(l.mint(acct(1), 0, vec![], 5, None, 0), Err(LedgerError::ClassNotFound));
}

#[test]
fn ids_increase_and_never_repeat() {
    let a = acct(1);
    let b = acct(2);
    let mut l = Ledger::new();
    let (_, c1) = l.create_class(a, vec![], vec![], vec![], TRANSFERABLE, no_royalty(a), 0).unwrap();
    let (_, c2) = l.create_class(a, vec![], vec![], vec![], TRANSFERABLE, no_royalty(a), 0).unwrap();
    let (_, c3) = l.create_class(b, vec![], vec![], vec![], TRANSFERABLE, no_royalty(b), 0).unwrap();
    assert_eq!((c1, c2, c3), (1, 2, 3));
    assert_eq!(l.class_count(), 3);
    let t1 = l.mint(a, 1, vec![], 5, None, 0).unwrap().3;
    l.transfer(a, b, 1, t1, 5).unwrap();
    l.transfer(b, a, 1, t1, 5).unwrap();
    l.transfer(a, b, 1, t1, 5).unwrap();
    let t2 = l.mint(a, 1, vec![], 5, None, 0).unwrap().3;
    let other = l.mint(a, 2, vec![], 5, None, 0).unwrap().3;
    let t3 = l.mint(a, 1, vec![], 5, None, 0).unwrap().3;
    assert_eq!((t1, t2, t3), (1, 2, 3));
    assert_eq!(other, 1);
}

#[test]
fn allocator_counts_up_from_one() {
    let mut ids = IdAllocator::new();
    assert_eq!(ids.issued(), 0);
    assert_eq!(ids.issue(), Some(1));
    assert_eq!(ids.issue(), Some(2));
    assert_eq!(ids.issue(), Some(3));
    assert_eq!(ids.issued(), 3);
}

#[test]
fn royalty_rounds_down() {
    assert_eq!(royalty_amount(1000, 250), 25);
    assert_eq!(royalty_amount(99, 100), 0);
    assert_eq!(royalty_amount(199, 100), 1);
    assert_eq!(royalty_amount(7, 0), 0);
    assert_eq!(royalty_amount(u64::MAX, 10000), u64::MAX);
    assert_eq!(royalty_amount(u64::MAX, 5000), u64::MAX / 2);
}

#[test]
fn mint_withholds_royalty_when_charged() {
    let a = acct(1);
    let r = acct(9);
    let mut l = Ledger::new();
    l.create_class(a, vec![], vec![], vec![], TRANSFERABLE, Royalty { recipient: r, bps: 1000 }, 0).unwrap();
    let (_, beneficiary, _, t1, q) = l.mint(a, 1, vec![], 105, Some(true), 0).unwrap();
    assert!(beneficiary.same_as(&a));
    assert_eq!(q, 105);
    assert_eq!(l.balance(1, t1, a), 95);
    assert_eq!(l.balance(1, t1, r), 10);
    assert_eq!(l.get_token(1, t1).1, 105);
    let t2 = l.mint(a, 1, vec![], 100, Some(false), 0).unwrap().3;
    assert_eq!(l.balance(1, t2, a), 100);
    assert_eq!(l.balance(1, t2, r), 0);
    let t3 = l.mint(a, 1, vec![], 100, None, 0).unwrap().3;
    assert_eq!(l.balance(1, t3, a), 100);
}

#[test]
fn royalty_to_owner_itself_keeps_everything() {
    let a = acct(1);
    let mut l = Ledger::new();
    l.create_class(a, vec![], vec![], vec![], TRANSFERABLE, Royalty { recipient: a, bps: 10000 }, 0).unwrap();
    let t = l.mint(a, 1, vec![], 40, Some(true), 0).unwrap().3;
    assert_eq!(l.balance(1, t, a), 40);
}

#[test]
fn royalty_above_whole_refused() {
    let a = acct(1);
    let mut l = Ledger::new();
    let r = l.create_class(a, vec![], vec![], vec![], TRANSFERABLE, Royalty { recipient: a, bps: 10001 }, 0);
    assert_eq!(r.unwrap_err(), LedgerError::InvalidRoyalty);
    assert_eq!(l.class_count(), 0);
    assert_eq!(l.get_class(1).unwrap_err(), LedgerError::ClassNotFound);
}

#[test]
fn class_record_kept() {
    let a = acct(4);
    let mut l = Ledger::new();
    l.create_class(a, vec![1, 2], b"n".to_vec(), b"d".to_vec(), 3, no_royalty(a), 77).unwrap();
    let cl = l.get_class(1).unwrap();
    assert!(cl.owner.same_as(&a));
    assert_eq!(cl.metadata, vec![1, 2]);
    assert_eq!(cl.name, b"n".to_vec());
    assert_eq!(cl.description, b"d".to_vec());
    assert_eq!(cl.properties, 3);
    assert_eq!(cl.created_block, 77);
    assert_eq!(l.get_class(0).unwrap_err(), LedgerError::ClassNotFound);
    assert_eq!(l.get_class(2).unwrap_err(), LedgerError::ClassNotFound);
}

#[test]
fn transfer_refusals() {
    let a = acct(1);
    let b = acct(2);
    let mut l = ledger_with_class(a, 0);
    l.mint(a, 1, vec![], 10, None, 2).unwrap();
    assert_eq!(l.transfer(a, b, 1, 1, 5), Err(LedgerError::NotTransferable));
    assert_eq!(l.transfer(a, b, 2, 1, 5), Err(LedgerError::ClassNotFound));
    l.create_class(a, vec![], vec![], vec![], TRANSFERABLE, no_royalty(a), 3).unwrap();
    l.mint(a, 2, vec![], 10, None, 4).unwrap();
    assert_eq!(l.transfer(a, b, 2, 1, 0), Err(LedgerError::InvalidQuantity));
    assert_eq!(l.transfer(a, b, 2, 5, 1), Err(LedgerError::InsufficientBalance));
    assert_eq!(l.balance(1, 1, a), 10);
    assert_eq!(l.balance(2, 1, a), 10);
}

#[test]
fn transfer_to_self_keeps_balance() {
    let a = acct(1);
    let mut l = ledger_with_class(a, TRANSFERABLE);
    l.mint(a, 1, vec![], 10, None, 2).unwrap();
    assert_eq!(l.transfer(a, a, 1, 1, 10), Ok(()));
    assert_eq!(l.balance(1, 1, a), 10);
}

#[test]
fn held_units_add_up_to_supply() {
    let a = acct(1);
    let b = acct(2);
    let c = acct(3);
    let mut l = ledger_with_class(a, TRANSFERABLE);
    l.mint(a, 1, vec![], 90, None, 2).unwrap();
    l.transfer(a, b, 1, 1, 30).unwrap();
    l.transfer(b, c, 1, 1, 10).unwrap();
    l.transfer_all(a, c, &vec![(1, 1, 5), (1, 1, 5)]).unwrap();
    let _ = l.transfer(c, a, 1, 1, 1000);
    let total = l.get_token(1, 1).1;
    assert_eq!(total, 90);
    assert_eq!(l.balance(1, 1, a) + l.balance(1, 1, b) + l.balance(1, 1, c), total);
    assert_eq!((l.balance(1, 1, a), l.balance(1, 1, b), l.balance(1, 1, c)), (50, 20, 20));
}

#[test]
fn unknown_token_reads_as_defaults() {
    let a = acct(1);
    let mut l = ledger_with_class(a, TRANSFERABLE);
    l.mint(a, 1, vec![5, 6], 3, None, 42).unwrap();
    assert_eq!(l.get_token(1, 1), (vec![5, 6], 3, 42));
    assert_eq!(l.get_token(1, 2), (vec![], 0, 0));
    assert_eq!(l.get_token(9, 1), (vec![], 0, 0));
}

#[test]
fn account_identity_compares_every_byte() {
    let mut x = [1u8; 32];
    assert!(AccountId(x).same_as(&AccountId([1u8; 32])));
    x[31] = 2;
    assert!(!AccountId(x).same_as(&AccountId([1u8; 32])));
}
