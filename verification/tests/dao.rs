use penumbra_logic::dao::{AssetId, DaoError, DaoState, Value};

fn asset(b: u8) -> AssetId {
    AssetId([b; 32])
}

fn value(amount: u128, b: u8) -> Value {
    Value { amount, asset_id: asset(b) }
}

fn sorted_balances(state: &DaoState<u32>) -> Vec<([u8; 32], u128)> {
    state.dao_balance().into_iter().map(|(id, a)| (id.0, a)).collect()
}

#[test]
fn new_state_is_empty() {
    let state: DaoState<u32> = DaoState::new();
    assert_eq!(state.dao_asset_balance(asset(1)), 0);
    assert!(state.dao_balance().is_empty());
    assert!(!state.dao_params_updated());
    assert!(matches!(state.get_dao_params(), Err(DaoError::MissingDaoParameters)));
}

#[test]
fn deposit_adds_to_balance() {
    let mut state: DaoState<u32> = DaoState::new();
    assert!(state.dao_deposit(value(100, 1)).is_ok());
    assert!(state.dao_deposit(value(23, 1)).is_ok());
    assert!(state.dao_deposit(value(7, 2)).is_ok());
    assert_eq!(state.dao_asset_balance(asset(1)), 123);
    assert_eq!(state.dao_asset_balance(asset(2)), 7);
    assert_eq!(state.dao_asset_balance(asset(3)), 0);
    assert_eq!(sorted_balances(&state), vec![([1u8; 32], 123), ([2u8; 32], 7)]);
}

#[test]
fn deposit_of_zero_creates_an_entry() {
    let mut state: DaoState<u32> = DaoState::new();
    assert!(state.dao_deposit(value(0, 4)).is_ok());
    assert_eq!(state.dao_asset_balance(asset(4)), 0);
    assert_eq!(sorted_balances(&state), vec![([4u8; 32], 0)]);
}

#[test]
fn withdraw_lowers_balance() {
    let mut state: DaoState<u32> = DaoState::new();
    state.dao_deposit(value(50, 1)).unwrap_or(());
    assert!(state.dao_withdraw(value(20, 1)).is_ok());
    assert_eq!(state.dao_asset_balance(asset(1)), 30);
    assert_eq!(sorted_balances(&state), vec![([1u8; 32], 30)]);
}

#[test]
fn withdraw_everything_removes_entry() {
    let mut state: DaoState<u32> = DaoState::new();
    state.dao_deposit(value(50, 1)).unwrap_or(());
    state.dao_deposit(value(9, 2)).unwrap_or(());
    assert!(state.dao_withdraw(value(50, 1)).is_ok());
    assert_eq!(state.dao_asset_balance(asset(1)), 0);
    assert_eq!(sorted_balances(&state), vec![([2u8; 32], 9)]);
}

#[test]
fn withdraw_too_much_is_refused_and_changes_nothing() {
    let mut state: DaoState<u32> = DaoState::new();
    state.dao_deposit(value(10, 1)).unwrap_or(());
    match state.dao_withdraw(value(11, 1)) {
        Err(DaoError::InsufficientBalance { amount, asset_id }) => {
            assert_eq!(amount, 11);
            assert_eq!(asset_id.0, [1u8; 32]);
        }
        _ => panic!("withdrawal should be refused"),
    }
    assert_eq!(state.dao_asset_balance(asset(1)), 10);
    assert_eq!(sorted_balances(&state), vec![([1u8; 32], 10)]);
}

#[test]
fn withdraw_from_missing_asset() {
    let mut state: DaoState<u32> = DaoState::new();
    assert!(matches!(
        state.dao_withdraw(value(1, 5)),
        Err(DaoError::InsufficientBalance { amount: 1, .. })
    ));
    assert!(state.dao_withdraw(value(0, 5)).is_ok());
    assert!(state.dao_balance().is_empty());
}

#[test]
fn withdraw_undoes_deposit() {
    let mut state: DaoState<u32> = DaoState::new();
    state.dao_deposit(value(40, 1)).unwrap_or(());
    state.dao_deposit(value(3, 2)).unwrap_or(());
    assert!(state.dao_deposit(value(15, 1)).is_ok());
    assert!(state.dao_withdraw(value(15, 1)).is_ok());
    assert_eq!(state.dao_asset_balance(asset(1)), 40);
    assert_eq!(state.dao_asset_balance(asset(2)), 3);
}

#[test]
fn deposit_undoes_withdraw() {
    let mut state: DaoState<u32> = DaoState::new();
    state.dao_deposit(value(40, 1)).unwrap_or(());
    assert!(state.dao_withdraw(value(40, 1)).is_ok());
    assert!(state.dao_deposit(value(40, 1)).is_ok());
    assert_eq!(state.dao_asset_balance(asset(1)), 40);
}

#[test]
fn deposit_up_to_the_largest_amount() {
    let mut state: DaoState<u32> = DaoState::new();
    state.dao_deposit(value(u128::MAX - 1, 1)).unwrap_or(());
    assert!(state.dao_deposit(value(1, 1)).is_ok());
    assert_eq!(state.dao_asset_balance(asset(1)), u128::MAX);
}

#[test]
fn params_read_after_write() {
    let mut state: DaoState<u32> = DaoState::new();
    state.dao_deposit(value(8, 1)).unwrap_or(());
    state.put_dao_params(17);
    assert!(state.dao_params_updated());
    assert!(matches!(state.get_dao_params(), Ok(17)));
    state.put_dao_params(18);
    assert!(matches!(state.get_dao_params(), Ok(18)));
    assert_eq!(state.dao_asset_balance(asset(1)), 8);
}

#[test]
fn asset_ids_compare_by_bytes() {
    let mut a = [0u8; 32];
    a[31] = 1;
    assert!(AssetId(a).same_as(&AssetId(a)));
    assert!(!AssetId(a).same_as(&AssetId([0u8; 32])));
}

fn id_with(low: u8, high: u8) -> AssetId {
    let mut bytes = [0u8; 32];
    bytes[0] = low;
    bytes[31] = high;
    AssetId(bytes)
}

#[test]
fn balances_are_listed_in_asset_order() {
    let mut state: DaoState<u32> = DaoState::new();
    // Encodings are little-endian: the last byte is the most significant.
    let big = id_with(1, 2);
    let middle = id_with(9, 1);
    let small = id_with(200, 0);
    state.dao_deposit(Value { amount: 1, asset_id: big }).unwrap_or(());
    state.dao_deposit(Value { amount: 2, asset_id: small }).unwrap_or(());
    state.dao_deposit(Value { amount: 3, asset_id: middle }).unwrap_or(());
    let listed: Vec<(u8, u8, u128)> =
        state.dao_balance().into_iter().map(|(id, a)| (id.0[0], id.0[31], a)).collect();
    assert_eq!(listed, vec![(200, 0, 2), (9, 1, 3), (1, 2, 1)]);
    assert!(state.dao_withdraw(Value { amount: 3, asset_id: middle }).is_ok());
    let listed: Vec<(u8, u8, u128)> =
        state.dao_balance().into_iter().map(|(id, a)| (id.0[0], id.0[31], a)).collect();
    assert_eq!(listed, vec![(200, 0, 2), (1, 2, 1)]);
}

#[test]
fn asset_order_reads_most_significant_byte_first() {
    assert!(id_with(255, 0).precedes(&id_with(0, 1)));
    assert!(!id_with(0, 1).precedes(&id_with(255, 0)));
    assert!(id_with(1, 7).precedes(&id_with(2, 7)));
    assert!(!id_with(2, 7).precedes(&id_with(2, 7)));
}

#[test]
fn parameter_change_is_recorded_for_one_block() {
    let mut state: DaoState<u32> = DaoState::new();
    state.put_dao_params(5);
    assert!(state.dao_params_updated());
    state.end_block();
    assert!(!state.dao_params_updated());
    assert!(matches!(state.get_dao_params(), Ok(5)));
    state.put_dao_params(6);
    assert!(state.dao_params_updated());
}
