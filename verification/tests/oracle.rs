use guild_network::balances::Balances;
use guild_network::oracle_client::RequestIds;
use guild_network::dispatch::{BalancesError, DispatchError, OracleError, Origin};
use guild_network::pallet_oracle::{Event as OracleEvent, OracleConfig, Pallet as Oracle};
use parity_scale_codec::{Decode, Encode};

const GENESIS_BALANCE: u64 = 10;
const ACCOUNT_0: u64 = 0;
const ACCOUNT_1: u64 = 1;
const MINIMUM_FEE: u64 = 1;
const VALIDITY_PERIOD: u64 = 10;
const MAX_OPERATORS: u32 = 4;
const CURRENT_BLOCK: u64 = 1;

fn new_test_ext() -> (Oracle, Balances) {
    let oracle = Oracle::new(OracleConfig {
        max_operators: MAX_OPERATORS,
        minimum_fee: MINIMUM_FEE,
        validity_period: VALIDITY_PERIOD,
    });
    let mut balances = Balances::new();
    balances.set_free_balance(ACCOUNT_0, GENESIS_BALANCE);
    balances.set_free_balance(ACCOUNT_1, GENESIS_BALANCE);
    (oracle, balances)
}

fn minimum_fee() -> u64 {
    MINIMUM_FEE
}

fn last_event(oracle: &Oracle) -> OracleEvent {
    oracle.last_event().unwrap()
}

fn assert_noop(
    oracle: &mut Oracle,
    tx: impl FnOnce(&mut Oracle) -> Result<(), DispatchError>,
    error: DispatchError,
) {
    let events_before = oracle.events().len();
    let operators_before = oracle.num_registered_operators();
    let active_before = oracle.active_operators();
    let next_request = oracle.request_identifier();
    assert_eq!(tx(oracle), Err(error));
    assert_eq!(oracle.events().len(), events_before);
    assert_eq!(oracle.num_registered_operators(), operators_before);
    assert_eq!(oracle.active_operators(), active_before);
    assert_eq!(oracle.request_identifier(), next_request);
}

#[test]
fn mod_invalid_transactions_fail() {
    let (mut oracle, mut balances) = new_test_ext();
    assert_noop(&mut oracle, |o| o.register_operator(Origin::Unsigned, 0), DispatchError::BadOrigin);
    assert_noop(&mut oracle, |o| o.register_operator(Origin::Signed(0), 0), DispatchError::BadOrigin);
    assert_noop(&mut oracle, |o| o.deregister_operator(Origin::Unsigned, 0), DispatchError::BadOrigin);
    assert_noop(&mut oracle, |o| o.deregister_operator(Origin::Signed(1), 0), DispatchError::BadOrigin);
    assert_noop(&mut oracle, |o| o.callback(&mut balances, Origin::Signed(0), 0, 0), DispatchError::BadOrigin);
    assert_noop(&mut oracle, |o| o.callback(&mut balances, Origin::Unsigned, 0, 0), DispatchError::BadOrigin);
    assert_noop(
        &mut oracle,
        |o| o.activate_operator(Origin::Signed(1)),
        DispatchError::Oracle(OracleError::UnknownOperator),
    );
    assert_noop(
        &mut oracle,
        |o| o.deactivate_operator(Origin::Signed(1)),
        DispatchError::Oracle(OracleError::UnknownOperator),
    );
    assert_noop(
        &mut oracle,
        |o| o.deregister_operator(Origin::Root, 1),
        DispatchError::Oracle(OracleError::UnknownOperator),
    );
    assert_noop(
        &mut oracle,
        |o| o.initiate_request(&mut balances, CURRENT_BLOCK, Origin::Signed(1), 0, vec![], minimum_fee()),
        DispatchError::Oracle(OracleError::NoActiveOperators),
    );
    assert_noop(
        &mut oracle,
        |o| o.callback(&mut balances, Origin::Root, 0, 0),
        DispatchError::Oracle(OracleError::UnknownRequest),
    );
}

#[test]
fn mod_kill_request() {
    let (mut oracle, mut balances) = new_test_ext();
    let request_id = 0;
    let current_block = CURRENT_BLOCK;

    assert_eq!(oracle.register_operator(Origin::Root, ACCOUNT_0), Ok(()));
    assert_eq!(oracle.activate_operator(Origin::Signed(ACCOUNT_0)), Ok(()));
    assert_eq!(
        oracle.initiate_request(&mut balances, current_block, Origin::Signed(ACCOUNT_1), 0, vec![], minimum_fee()),
        Ok(())
    );

    oracle.on_finalize(current_block + VALIDITY_PERIOD - 1);
    assert!(oracle.request(request_id).is_some());

    oracle.on_finalize(current_block + VALIDITY_PERIOD + 1);
    // Request has been killed, too old Unknown request error
    assert_noop(
        &mut oracle,
        |o| o.callback(&mut balances, Origin::Root, ACCOUNT_0, request_id),
        DispatchError::Oracle(OracleError::UnknownRequest),
    );
    assert!(oracle.request(request_id).is_none());
}

#[test]
fn register_operator_registration_valid() {
    let (mut oracle, _) = new_test_ext();
    let operator = 1;
    assert_eq!(oracle.num_registered_operators(), 0);
    assert_eq!(oracle.register_operator(Origin::Root, operator), Ok(()));
    assert!(oracle.operator(operator).is_some());
    assert_eq!(oracle.num_registered_operators(), 1);
    assert_eq!(last_event(&oracle), OracleEvent::OperatorRegistered(operator));
}

#[test]
fn register_operator_registration_invalid_operator_already_registered() {
    let (mut oracle, _) = new_test_ext();
    let operator_1 = 1;
    let operator_2 = 2;
    assert_eq!(oracle.register_operator(Origin::Root, operator_1), Ok(()));
    assert!(oracle.operator(operator_1).is_some());
    assert_eq!(oracle.num_registered_operators(), 1);

    // Operator already registered error
    assert_noop(
        &mut oracle,
        |o| o.register_operator(Origin::Root, operator_1),
        DispatchError::Oracle(OracleError::OperatorAlreadyRegistered),
    );
    assert!(oracle.operator(operator_1).is_some());
    assert_eq!(oracle.num_registered_operators(), 1);

    assert_eq!(oracle.register_operator(Origin::Root, operator_2), Ok(()));
    assert!(oracle.operator(operator_1).is_some());
    assert!(oracle.operator(operator_2).is_some());
    assert_eq!(oracle.num_registered_operators(), 2);
}

#[test]
fn operator_deregistration_valid() {
    let (mut oracle, _) = new_test_ext();
    let operator_0 = 0;
    let operator_1 = 1;
    let operator_2 = 2;

    assert_eq!(oracle.register_operator(Origin::Root, operator_1), Ok(()));
    assert_eq!(oracle.deregister_operator(Origin::Root, operator_1), Ok(()));
    assert_eq!(oracle.num_registered_operators(), 0);
    assert_eq!(last_event(&oracle), OracleEvent::OperatorDeregistered(operator_1));

    assert_eq!(oracle.register_operator(Origin::Root, operator_2), Ok(()));
    assert_eq!(oracle.register_operator(Origin::Root, operator_0), Ok(()));
    assert_eq!(oracle.register_operator(Origin::Root, operator_1), Ok(()));
    assert_eq!(oracle.deregister_operator(Origin::Root, operator_0), Ok(()));
    assert_eq!(oracle.num_registered_operators(), 2);
    assert!(oracle.operator(operator_1).is_some());
    assert!(oracle.operator(operator_2).is_some());
    assert_eq!(last_event(&oracle), OracleEvent::OperatorDeregistered(operator_0));
}

#[test]
fn operator_activation_and_deactivation() {
    let (mut oracle, _) = new_test_ext();
    let operator_0 = 0;
    let operator_1 = 1;
    let operator_2 = 2;
    let operator_3 = 3;
    let operator_4 = 4;

    assert_eq!(oracle.register_operator(Origin::Root, operator_0), Ok(()));
    assert_eq!(oracle.register_operator(Origin::Root, operator_1), Ok(()));
    assert_eq!(oracle.register_operator(Origin::Root, operator_2), Ok(()));

    assert_eq!(oracle.activate_operator(Origin::Signed(operator_2)), Ok(()));
    assert_eq!(oracle.activate_operator(Origin::Signed(operator_0)), Ok(()));
    assert_eq!(oracle.activate_operator(Origin::Signed(operator_1)), Ok(()));

    assert_eq!(last_event(&oracle), OracleEvent::OperatorActivated(operator_1));
    assert_eq!(oracle.active_operators(), vec![operator_0, operator_1, operator_2]);
    assert_eq!(oracle.num_registered_operators(), 3);

    // deactivate operator_0
    assert_eq!(oracle.deactivate_operator(Origin::Signed(operator_0)), Ok(()));
    assert_eq!(last_event(&oracle), OracleEvent::OperatorDeactivated(operator_0));
    assert_eq!(oracle.active_operators(), vec![operator_1, operator_2]);
    assert_eq!(oracle.num_registered_operators(), 3);

    // activate all registered operators (reactivate operator_0)
    assert_eq!(oracle.register_operator(Origin::Root, operator_3), Ok(()));
    assert_eq!(oracle.num_registered_operators(), 4);
    assert_eq!(oracle.activate_operator(Origin::Signed(operator_3)), Ok(()));
    assert_eq!(oracle.activate_operator(Origin::Signed(operator_0)), Ok(()));
    assert_eq!(oracle.active_operators(), vec![operator_0, operator_1, operator_2, operator_3]);

    // not yet registered operator tries to activate
    assert_noop(
        &mut oracle,
        |o| o.activate_operator(Origin::Signed(operator_4)),
        DispatchError::Oracle(OracleError::UnknownOperator),
    );

    // deregister an activated operator
    assert_eq!(oracle.deregister_operator(Origin::Root, operator_1), Ok(()));
    assert_eq!(oracle.num_registered_operators(), 3);
    assert_eq!(oracle.active_operators(), vec![operator_0, operator_2, operator_3]);
    assert_noop(
        &mut oracle,
        |o| o.deactivate_operator(Origin::Signed(operator_1)),
        DispatchError::Oracle(OracleError::UnknownOperator),
    );
    // deregister a deactivated operator
    assert_eq!(oracle.deactivate_operator(Origin::Signed(operator_2)), Ok(()));
    assert_eq!(oracle.active_operators(), vec![operator_0, operator_3]);
    assert_eq!(oracle.num_registered_operators(), 3);
    assert_eq!(oracle.deregister_operator(Origin::Root, operator_2), Ok(()));
    assert_eq!(oracle.num_registered_operators(), 2);
    // deregistered tries to re-activate again
    assert_noop(
        &mut oracle,
        |o| o.activate_operator(Origin::Signed(operator_2)),
        DispatchError::Oracle(OracleError::UnknownOperator),
    );
    // register a new operator
    assert_eq!(oracle.register_operator(Origin::Root, operator_4), Ok(()));
    assert_eq!(oracle.num_registered_operators(), 3);
    assert_eq!(oracle.register_operator(Origin::Root, operator_2), Ok(()));
    assert_eq!(oracle.num_registered_operators(), 4);
    assert_eq!(oracle.activate_operator(Origin::Signed(operator_4)), Ok(()));
    assert_eq!(oracle.activate_operator(Origin::Signed(operator_2)), Ok(()));
    assert_eq!(oracle.active_operators(), vec![operator_0, operator_2, operator_3, operator_4]);
}

#[test]
fn initiate_initiate_requests_valid() {
    let (mut oracle, mut balances) = new_test_ext();
    let pallet_index = 0;
    let fee = minimum_fee();
    let parameters = ("a", "b");
    let data = parameters.encode();
    let request_id = 0;

    assert_eq!(oracle.register_operator(Origin::Root, ACCOUNT_0), Ok(()));
    assert_eq!(last_event(&oracle), OracleEvent::OperatorRegistered(ACCOUNT_0));
    assert_eq!(oracle.activate_operator(Origin::Signed(ACCOUNT_0)), Ok(()));
    assert_eq!(last_event(&oracle), OracleEvent::OperatorActivated(ACCOUNT_0));

    assert_eq!(
        oracle.initiate_request(&mut balances, CURRENT_BLOCK, Origin::Signed(ACCOUNT_1), pallet_index, data.clone(), fee),
        Ok(())
    );
    assert_eq!(
        last_event(&oracle),
        OracleEvent::OracleRequest { request_id, operator: ACCOUNT_0, pallet_index, fee }
    );

    let r = <(Vec<u8>, Vec<u8>)>::decode(&mut &data[..]).unwrap();
    assert_eq!(parameters.0, std::str::from_utf8(&r.0).unwrap());
    assert_eq!(parameters.1, std::str::from_utf8(&r.1).unwrap());

    assert_eq!(oracle.callback(&mut balances, Origin::Root, ACCOUNT_0, request_id), Ok(()));
    assert_eq!(last_event(&oracle), OracleEvent::OracleAnswer { request_id, operator: ACCOUNT_0 });
}

#[test]
fn initiate_linear_request_delegation() {
    let (mut oracle, mut balances) = new_test_ext();
    let operator = 9;
    let operator_0 = 10;
    let operator_1 = 11;
    let operator_2 = 12;
    let operator_3 = 13;
    let data: Vec<u8> = vec![];
    let pallet_index = 0;
    let fee = minimum_fee();
    let mut request_id = 0;

    assert_eq!(oracle.register_operator(Origin::Root, operator), Ok(()));
    assert_eq!(oracle.register_operator(Origin::Root, operator_0), Ok(()));
    assert_eq!(oracle.register_operator(Origin::Root, operator_1), Ok(()));
    assert_eq!(oracle.register_operator(Origin::Root, operator_2), Ok(()));
    assert_noop(
        &mut oracle,
        |o| o.register_operator(Origin::Root, operator_3),
        DispatchError::Oracle(OracleError::MaxOperatorsRegistered),
    );
    assert_eq!(oracle.num_registered_operators(), MAX_OPERATORS);
    assert_eq!(oracle.deregister_operator(Origin::Root, operator), Ok(()));
    assert_eq!(oracle.register_operator(Origin::Root, operator_3), Ok(()));

    // activate operators
    assert_eq!(oracle.activate_operator(Origin::Signed(operator_0)), Ok(()));
    assert_eq!(oracle.activate_operator(Origin::Signed(operator_1)), Ok(()));
    assert_eq!(oracle.activate_operator(Origin::Signed(operator_2)), Ok(()));
    assert_eq!(oracle.activate_operator(Origin::Signed(operator_3)), Ok(()));

    for expected in [operator_0, operator_1, operator_2, operator_3, operator_0] {
        assert_eq!(
            oracle.initiate_request(&mut balances, CURRENT_BLOCK, Origin::Signed(ACCOUNT_0), pallet_index, data.clone(), fee),
            Ok(())
        );
        assert_eq!(
            last_event(&oracle),
            OracleEvent::OracleRequest { request_id, operator: expected, pallet_index, fee }
        );
        request_id += 1;
    }

    // operator_1, and operator_2 deactivates
    assert_eq!(oracle.deactivate_operator(Origin::Signed(operator_1)), Ok(()));
    assert_eq!(oracle.deactivate_operator(Origin::Signed(operator_2)), Ok(()));
    assert_eq!(
        oracle.initiate_request(&mut balances, CURRENT_BLOCK, Origin::Signed(ACCOUNT_0), pallet_index, data.clone(), fee),
        Ok(())
    );
    assert_eq!(
        last_event(&oracle),
        OracleEvent::OracleRequest { request_id, operator: operator_3, pallet_index, fee }
    );
    request_id += 1;

    // operator_0 is deregistered by root
    assert_eq!(oracle.deregister_operator(Origin::Root, operator_0), Ok(()));
    assert_eq!(oracle.active_operators(), vec![operator_3]);
    assert_eq!(
        oracle.initiate_request(&mut balances, CURRENT_BLOCK, Origin::Signed(ACCOUNT_0), pallet_index, data.clone(), fee),
        Ok(())
    );
    assert_eq!(
        last_event(&oracle),
        OracleEvent::OracleRequest { request_id, operator: operator_3, pallet_index, fee }
    );
    request_id += 1;

    assert_eq!(
        oracle.initiate_request(&mut balances, CURRENT_BLOCK, Origin::Signed(ACCOUNT_0), pallet_index, data, fee),
        Ok(())
    );
    assert_eq!(
        last_event(&oracle),
        OracleEvent::OracleRequest { request_id, operator: operator_3, pallet_index, fee }
    );
}

#[test]
fn initiate_initiate_requests_invalid_insufficient_fee() {
    let (mut oracle, mut balances) = new_test_ext();
    assert_eq!(oracle.register_operator(Origin::Root, ACCOUNT_0), Ok(()));
    assert_eq!(oracle.activate_operator(Origin::Signed(ACCOUNT_0)), Ok(()));
    assert_noop(
        &mut oracle,
        |o| o.initiate_request(&mut balances, CURRENT_BLOCK, Origin::Signed(ACCOUNT_1), 0, vec![], minimum_fee() - 1),
        DispatchError::Oracle(OracleError::InsufficientFee),
    );
}

#[test]
fn initiate_initiate_requests_invalid_insufficient_balance_for_fee() {
    let (mut oracle, mut balances) = new_test_ext();
    assert_eq!(oracle.register_operator(Origin::Root, ACCOUNT_0), Ok(()));
    assert_eq!(oracle.activate_operator(Origin::Signed(ACCOUNT_0)), Ok(()));
    assert_noop(
        &mut oracle,
        |o| o.initiate_request(&mut balances, CURRENT_BLOCK, Origin::Signed(ACCOUNT_1), 0, vec![], GENESIS_BALANCE + 1),
        DispatchError::Balances(BalancesError::InsufficientBalance),
    );
    assert_eq!(balances.free_balance(ACCOUNT_1), GENESIS_BALANCE);
    assert_eq!(balances.reserved_balance(ACCOUNT_1), 0);
}

#[test]
fn initiate_initiate_requests_invalid_wrong_operator() {
    let (mut oracle, mut balances) = new_test_ext();
    assert_eq!(oracle.register_operator(Origin::Root, ACCOUNT_0), Ok(()));
    assert_eq!(oracle.activate_operator(Origin::Signed(ACCOUNT_0)), Ok(()));
    assert_eq!(
        oracle.initiate_request(&mut balances, CURRENT_BLOCK, Origin::Signed(ACCOUNT_1), 0, vec![], minimum_fee()),
        Ok(())
    );
    assert_noop(
        &mut oracle,
        |o| o.callback(&mut balances, Origin::Root, 99, 0),
        DispatchError::Oracle(OracleError::WrongOperator),
    );
}

// ----------------------------------------------------------------- laws

#[test]
fn fee_moves_from_requester_to_operator() {
    let (mut oracle, mut balances) = new_test_ext();
    assert_eq!(oracle.register_operator(Origin::Root, ACCOUNT_0), Ok(()));
    assert_eq!(oracle.activate_operator(Origin::Signed(ACCOUNT_0)), Ok(()));
    assert_eq!(
        oracle.initiate_request(&mut balances, CURRENT_BLOCK, Origin::Signed(ACCOUNT_1), 7, vec![1, 2], 3),
        Ok(())
    );
    assert_eq!(balances.free_balance(ACCOUNT_1), GENESIS_BALANCE - 3);
    assert_eq!(balances.reserved_balance(ACCOUNT_1), 3);
    let request = oracle.request(0).unwrap();
    assert_eq!(request.requester, ACCOUNT_1);
    assert_eq!(request.operator, ACCOUNT_0);
    assert_eq!(request.pallet_index, 7);
    assert_eq!(request.data, vec![1, 2]);
    assert_eq!(request.block_number, CURRENT_BLOCK);
    assert_eq!(oracle.callback(&mut balances, Origin::Root, ACCOUNT_0, 0), Ok(()));
    assert_eq!(balances.free_balance(ACCOUNT_1), GENESIS_BALANCE - 3);
    assert_eq!(balances.reserved_balance(ACCOUNT_1), 0);
    assert_eq!(balances.free_balance(ACCOUNT_0), GENESIS_BALANCE + 3);
    // a second answer to the same request is refused
    assert_noop(
        &mut oracle,
        |o| o.callback(&mut balances, Origin::Root, ACCOUNT_0, 0),
        DispatchError::Oracle(OracleError::UnknownRequest),
    );
}

#[test]
fn deregistered_operator_is_no_longer_active() {
    let (mut oracle, _) = new_test_ext();
    assert_eq!(oracle.register_operator(Origin::Root, 5), Ok(()));
    assert_eq!(oracle.activate_operator(Origin::Signed(5)), Ok(()));
    assert_eq!(oracle.deregister_operator(Origin::Root, 5), Ok(()));
    assert!(oracle.operator(5).is_none());
    assert!(oracle.active_operators().is_empty());
    assert_eq!(
        oracle.activate_operator(Origin::Signed(5)),
        Err(DispatchError::Oracle(OracleError::UnknownOperator))
    );
}

#[test]
fn request_kept_until_validity_period_passed() {
    let (mut oracle, mut balances) = new_test_ext();
    assert_eq!(oracle.register_operator(Origin::Root, ACCOUNT_0), Ok(()));
    assert_eq!(oracle.activate_operator(Origin::Signed(ACCOUNT_0)), Ok(()));
    assert_eq!(
        oracle.initiate_request(&mut balances, 5, Origin::Signed(ACCOUNT_1), 0, vec![], minimum_fee()),
        Ok(())
    );
    oracle.on_finalize(5 + VALIDITY_PERIOD);
    assert!(oracle.request(0).is_some());
    oracle.on_finalize(5 + VALIDITY_PERIOD + 1);
    assert!(oracle.request(0).is_none());
}

#[test]
fn oracle_node_takes_requests_delegated_to_it() {
    let events = vec![
        OracleEvent::OperatorRegistered(3),
        OracleEvent::OracleRequest { request_id: 0, operator: 3, pallet_index: 1, fee: 0 },
        OracleEvent::OracleRequest { request_id: 1, operator: 4, pallet_index: 1, fee: 0 },
        OracleEvent::OracleRequest { request_id: 2, operator: 3, pallet_index: 2, fee: 0 },
        OracleEvent::OracleRequest { request_id: 3, operator: 3, pallet_index: 9, fee: 0 },
        OracleEvent::OracleRequest { request_id: 4, operator: 4, pallet_index: 2, fee: 0 },
        OracleEvent::OracleRequest { request_id: 5, operator: 3, pallet_index: 2, fee: 0 },
    ];
    let ids = RequestIds::new(&events, 3, 1, 2);
    assert_eq!(ids.challenges, vec![0]);
    assert_eq!(ids.joins, vec![2, 5]);

    let single = vec![OracleEvent::OracleRequest { request_id: 7, operator: 3, pallet_index: 1, fee: 0 }];
    let ids = RequestIds::new(&single, 3, 1, 2);
    assert_eq!(ids.challenges, vec![7]);
    assert!(ids.joins.is_empty());
}
