use mizumi_program::admin::admin_key_string;
use mizumi_program::ledger::Ledger;
use mizumi_program::types::{LedgerError, MizumiFiat, MizumiStable, SwapStage, TransactionKind};
use mizumi_program::vault::TransferParty;

fn admin() -> String {
    admin_key_string()
}

#[test]
fn round_trip_register_open_initiate_complete() {
    let mut l = Ledger::new();
    let u = String::from("user-one");
    let s1 = String::from("s1");

    assert!(l.new_user(&u).is_ok());
    assert!(l.first_swap(&admin(), &u, &s1).is_ok());
    let plan = l
        .initiate_swap(
            &admin(),
            &u,
            &s1,
            MizumiStable::USDC,
            100,
            MizumiFiat::USD,
            TransactionKind::Offramp,
            1_700_000_000,
        )
        .unwrap();
    assert_eq!(plan.from, TransferParty::UserHolder(MizumiStable::USDC));
    assert_eq!(plan.to, TransferParty::Vault(MizumiStable::USDC));
    assert_eq!(plan.authorizer, TransferParty::UserAuthority);
    assert_eq!(plan.amount, 100);
    assert!(l
        .complete_swap(&admin(), &u, &s1, true, 100, 1_700_000_100)
        .is_ok());

    let user = l.get_user(&u).unwrap();
    assert_eq!(user.swaps_count, 1);
    assert_eq!(user.total_swaps_value, 100);

    let swap = l.get_swap(&u, &s1).unwrap();
    assert!(swap.settled);
    assert_eq!(swap.settled_amount, 100);
    assert_eq!(swap.amount_in, 100);
    assert_eq!(swap.token, MizumiStable::USDC);
    assert_eq!(swap.fiat, MizumiFiat::USD);
    assert_eq!(swap.tx_kind, TransactionKind::Offramp);
    assert_eq!(swap.created_ts, 1_700_000_000);
    assert_eq!(swap.settled_ts, 1_700_000_100);
    assert_eq!(swap.stage, SwapStage::Completed);
}

#[test]
fn two_users_open_first_swaps_independently() {
    let mut l = Ledger::new();
    let u1 = String::from("user-one");
    let u2 = String::from("user-two");

    assert!(l.new_user(&u1).is_ok());
    assert!(l.new_user(&u2).is_ok());
    assert!(l.first_swap(&admin(), &u1, &String::from("a-1")).is_ok());
    assert!(l.first_swap(&admin(), &u2, &String::from("b-1")).is_ok());

    assert_eq!(l.get_user(&u1).unwrap().swaps_count, 1);
    assert_eq!(l.get_user(&u2).unwrap().swaps_count, 1);
    assert_eq!(l.get_user(&u1).unwrap().total_swaps_value, 0);
    assert_eq!(l.get_user(&u2).unwrap().total_swaps_value, 0);
}

#[test]
fn initiate_on_unopened_swap_fails_precursor_missing() {
    let mut l = Ledger::new();
    let u = String::from("user-one");
    let never = String::from("never-opened");
    assert!(l.new_user(&u).is_ok());

    let r = l.initiate_swap(
        &admin(),
        &u,
        &never,
        MizumiStable::USDT,
        5,
        MizumiFiat::GHS,
        TransactionKind::Onramp,
        7,
    );
    assert_eq!(r.unwrap_err(), LedgerError::PrecursorMissing);
    assert!(l.get_swap(&u, &never).is_none());
}

#[test]
fn duplicate_registration_fails_already_exists() {
    let mut l = Ledger::new();
    let u = String::from("user-one");
    assert!(l.new_user(&u).is_ok());
    assert_eq!(l.new_user(&u), Err(LedgerError::AlreadyExists));

    let user = l.get_user(&u).unwrap();
    assert_eq!(user.swaps_count, 0);
    assert_eq!(user.total_swaps_value, 0);
}

#[test]
fn first_swap_succeeds_only_while_count_is_zero() {
    let mut l = Ledger::new();
    let u = String::from("user-one");
    let s1 = String::from("s1");
    assert!(l.new_user(&u).is_ok());
    assert!(l.first_swap(&admin(), &u, &s1).is_ok());

    // the identical call again, and any other first-swap call for this user
    assert_eq!(
        l.first_swap(&admin(), &u, &s1),
        Err(LedgerError::NotFirstSwap)
    );
    assert_eq!(
        l.first_swap(&admin(), &u, &String::from("s2")),
        Err(LedgerError::NotFirstSwap)
    );
    assert_eq!(l.get_user(&u).unwrap().swaps_count, 1);
}

#[test]
fn first_swap_for_unregistered_user_fails() {
    let mut l = Ledger::new();
    let r = l.first_swap(&admin(), &String::from("ghost"), &String::from("s1"));
    assert_eq!(r, Err(LedgerError::PrecursorMissing));
}

#[test]
fn swap_count_grows_by_one_per_opened_swap() {
    let mut l = Ledger::new();
    let u = String::from("user-one");
    assert!(l.new_user(&u).is_ok());
    assert_eq!(l.get_user(&u).unwrap().swaps_count, 0);
    assert!(l.first_swap(&admin(), &u, &String::from("s1")).is_ok());
    assert_eq!(l.get_user(&u).unwrap().swaps_count, 1);
    assert!(l.new_swap(&admin(), &u, &String::from("s2")).is_ok());
    assert_eq!(l.get_user(&u).unwrap().swaps_count, 2);
    assert!(l.new_swap(&admin(), &u, &String::from("s3")).is_ok());
    assert_eq!(l.get_user(&u).unwrap().swaps_count, 3);
}

#[test]
fn new_swap_on_taken_id_fails_already_exists() {
    let mut l = Ledger::new();
    let u = String::from("user-one");
    let s1 = String::from("s1");
    assert!(l.new_user(&u).is_ok());
    assert!(l.first_swap(&admin(), &u, &s1).is_ok());
    assert_eq!(l.new_swap(&admin(), &u, &s1), Err(LedgerError::AlreadyExists));
    assert_eq!(l.get_user(&u).unwrap().swaps_count, 1);
}

#[test]
fn non_admin_callers_are_rejected() {
    let mut l = Ledger::new();
    let u = String::from("user-one");
    let s1 = String::from("s1");
    let stranger = String::from("not-the-admin");
    assert!(l.new_user(&u).is_ok());

    assert_eq!(
        l.first_swap(&stranger, &u, &s1),
        Err(LedgerError::Unauthorized)
    );
    assert_eq!(
        l.new_swap(&stranger, &u, &s1),
        Err(LedgerError::Unauthorized)
    );
    assert_eq!(
        l.initiate_swap(
            &stranger,
            &u,
            &s1,
            MizumiStable::USDC,
            1,
            MizumiFiat::USD,
            TransactionKind::Onramp,
            0,
        )
        .unwrap_err(),
        LedgerError::Unauthorized
    );
    assert_eq!(
        l.complete_swap(&stranger, &u, &s1, true, 1, 0),
        Err(LedgerError::Unauthorized)
    );
    // nothing was created along the way
    assert!(l.get_swap(&u, &s1).is_none());
    assert_eq!(l.get_user(&u).unwrap().swaps_count, 0);
}

#[test]
fn complete_before_initiate_fails_precursor_missing() {
    let mut l = Ledger::new();
    let u = String::from("user-one");
    let s1 = String::from("s1");
    assert!(l.new_user(&u).is_ok());
    assert!(l.first_swap(&admin(), &u, &s1).is_ok());

    let r = l.complete_swap(&admin(), &u, &s1, true, 10, 0);
    assert_eq!(r, Err(LedgerError::PrecursorMissing));
    assert_eq!(l.get_user(&u).unwrap().total_swaps_value, 0);
}

#[test]
fn initiate_twice_fails_precursor_missing() {
    let mut l = Ledger::new();
    let u = String::from("user-one");
    let s1 = String::from("s1");
    assert!(l.new_user(&u).is_ok());
    assert!(l.first_swap(&admin(), &u, &s1).is_ok());
    assert!(l
        .initiate_swap(
            &admin(),
            &u,
            &s1,
            MizumiStable::USDC,
            10,
            MizumiFiat::GHS,
            TransactionKind::Onramp,
            1,
        )
        .is_ok());
    let r = l.initiate_swap(
        &admin(),
        &u,
        &s1,
        MizumiStable::USDC,
        10,
        MizumiFiat::GHS,
        TransactionKind::Onramp,
        2,
    );
    assert_eq!(r.unwrap_err(), LedgerError::PrecursorMissing);
}

#[test]
fn repeated_completion_accumulates_every_reported_amount() {
    let mut l = Ledger::new();
    let u = String::from("user-one");
    let s1 = String::from("s1");
    assert!(l.new_user(&u).is_ok());
    assert!(l.first_swap(&admin(), &u, &s1).is_ok());
    assert!(l
        .initiate_swap(
            &admin(),
            &u,
            &s1,
            MizumiStable::USDT,
            100,
            MizumiFiat::GHS,
            TransactionKind::Offramp,
            10,
        )
        .is_ok());

    assert!(l.complete_swap(&admin(), &u, &s1, true, 100, 11).is_ok());
    assert_eq!(l.get_user(&u).unwrap().total_swaps_value, 100);

    // a second completion is not guarded against, and accumulates again,
    // even with the outcome reported as false
    assert!(l.complete_swap(&admin(), &u, &s1, false, 50, 12).is_ok());
    let user = l.get_user(&u).unwrap();
    assert_eq!(user.total_swaps_value, 150);
    let swap = l.get_swap(&u, &s1).unwrap();
    assert!(!swap.settled);
    assert_eq!(swap.settled_amount, 50);
    assert_eq!(swap.settled_ts, 12);
}

#[test]
fn opened_record_starts_zeroed() {
    let mut l = Ledger::new();
    let u = String::from("user-one");
    let s1 = String::from("s1");
    assert!(l.new_user(&u).is_ok());
    assert!(l.first_swap(&admin(), &u, &s1).is_ok());

    let swap = l.get_swap(&u, &s1).unwrap();
    assert_eq!(swap.authority, u);
    assert!(!swap.settled);
    assert_eq!(swap.amount_in, 0);
    assert_eq!(swap.settled_amount, 0);
    assert_eq!(swap.stage, SwapStage::Created);
}

#[test]
fn new_swap_is_not_guarded_by_the_count() {
    // routing a user's very first swap through the subsequent-swap path is a
    // caller error, but the ledger accepts it and counts it like any other
    let mut l = Ledger::new();
    let u = String::from("user-one");
    assert!(l.new_user(&u).is_ok());
    assert!(l.new_swap(&admin(), &u, &String::from("s1")).is_ok());
    assert_eq!(l.get_user(&u).unwrap().swaps_count, 1);
}
