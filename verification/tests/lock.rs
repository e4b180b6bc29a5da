use zswap::lock::LockContract;

#[test]
#[should_panic(expected = "LOK")]
fn test_lock_panic() {
    let mut lock_contract = LockContract::default();
    lock_contract.lock(|| {
        panic!("LOK");
    });
}

#[test]
fn lock_opens_again() {
    let mut lock_contract = LockContract { unlocked: true };
    lock_contract.lock(|| {});
    assert!(lock_contract.unlocked);
    lock_contract.some_thing();
    assert!(lock_contract.unlocked);
}

#[test]
fn a_closed_lock_refuses() {
    let mut lock_contract = LockContract::default();
    let ran = lock_contract.try_lock(|| {
        panic!("the closure must not run");
    });
    assert!(!ran);
    assert!(!lock_contract.unlocked);

    let mut open = LockContract { unlocked: true };
    let mut count = 0;
    assert!(open.try_lock(|| count += 1));
    assert_eq!(count, 1);
    assert!(open.unlocked);
}
