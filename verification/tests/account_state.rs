use eager_scheduler::account_state::AccountState;
use eager_scheduler::types::{Reservation, SequenceNumber};

#[test]
fn test_account_state_reservations() {
    let mut state = AccountState::new(100, SequenceNumber::from_u64(0));

    // Test MaxAmountU64 reservation
    assert!(state.try_reserve(&Reservation::MaxAmountU64(50)));
    assert_eq!(state.minimum_guaranteed_balance(), 50);
    assert!(state.try_reserve(&Reservation::MaxAmountU64(30)));
    assert_eq!(state.minimum_guaranteed_balance(), 20);
    assert!(!state.try_reserve(&Reservation::MaxAmountU64(30)));

    // Test EntireBalance reservation
    let mut state2 = AccountState::new(100, SequenceNumber::from_u64(0));
    assert!(state2.try_reserve(&Reservation::EntireBalance));
    assert_eq!(state2.minimum_guaranteed_balance(), 0);
    assert!(!state2.try_reserve(&Reservation::MaxAmountU64(1)));

    // Test EntireBalance after partial reservation
    let mut state3 = AccountState::new(100, SequenceNumber::from_u64(0));
    assert!(state3.try_reserve(&Reservation::MaxAmountU64(50)));
    assert!(!state3.try_reserve(&Reservation::EntireBalance));
}

#[test]
fn test_settlement_resets_reservations() {
    let mut state = AccountState::new(100, SequenceNumber::from_u64(0));
    assert!(state.try_reserve(&Reservation::MaxAmountU64(80)));
    assert_eq!(state.minimum_guaranteed_balance(), 20);

    state.apply_settlement(150, SequenceNumber::from_u64(1));
    assert_eq!(state.minimum_guaranteed_balance(), 150);
    assert_eq!(state.cumulative_reservations, 0);
    assert!(!state.entire_balance_reserved);
}

#[test]
fn entire_balance_of_an_empty_account_is_refused() {
    let mut state = AccountState::new(0, SequenceNumber::from_u64(3));
    let before = state;
    assert!(!state.try_reserve(&Reservation::EntireBalance));
    assert_eq!(state, before);
    assert!(state.try_reserve(&Reservation::MaxAmountU64(0)));
    assert_eq!(state, before);
}

#[test]
fn entire_balance_is_reserved_once_until_settlement() {
    let mut state = AccountState::new(7, SequenceNumber::from_u64(3));
    assert!(state.try_reserve(&Reservation::EntireBalance));
    assert!(!state.try_reserve(&Reservation::EntireBalance));
    assert!(!state.try_reserve(&Reservation::MaxAmountU64(0)));
    state.apply_settlement(9, SequenceNumber::from_u64(4));
    assert_eq!(state.last_settled_version.value(), 4);
    assert!(state.try_reserve(&Reservation::EntireBalance));
}

#[test]
fn the_whole_balance_can_be_taken_in_parts_and_no_more() {
    let mut state = AccountState::new(u64::MAX, SequenceNumber::from_u64(0));
    assert!(state.try_reserve(&Reservation::MaxAmountU64(u64::MAX - 1)));
    assert!(!state.try_reserve(&Reservation::MaxAmountU64(2)));
    assert!(state.try_reserve(&Reservation::MaxAmountU64(1)));
    assert_eq!(state.cumulative_reservations, u64::MAX);
    assert_eq!(state.minimum_guaranteed_balance(), 0);
    assert!(state.try_reserve(&Reservation::MaxAmountU64(0)));
    assert!(!state.try_reserve(&Reservation::MaxAmountU64(1)));
}

#[test]
fn reservations_beyond_the_balance_leave_nothing_guaranteed() {
    let mut state = AccountState {
        settled_balance: 10,
        cumulative_reservations: 12,
        last_settled_version: SequenceNumber::from_u64(0),
        entire_balance_reserved: false,
    };
    assert_eq!(state.minimum_guaranteed_balance(), 0);
    assert!(!state.try_reserve(&Reservation::MaxAmountU64(1)));
    assert!(!state.try_reserve(&Reservation::EntireBalance));
    assert_eq!(state.cumulative_reservations, 12);
}
