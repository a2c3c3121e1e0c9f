use guild_network::balances::Balances;
use guild_network::dispatch::{DispatchError, IdentityError, OracleError, Origin};
use guild_network::pallet_guild_identity::{Event as IdentityEvent, IdentityConfig, Pallet as GuildIdentity};
use guild_network::pallet_oracle::{OracleConfig, Pallet as Oracle};

const PALLET_INDEX: u32 = 1;
const NOW: u64 = 1;

fn new_identity() -> GuildIdentity {
    GuildIdentity::new(IdentityConfig {
        max_linked_addresses: 2,
        max_linked_address_types: 2,
        max_linked_identity_types: 3,
        pallet_index: PALLET_INDEX,
    })
}

fn new_oracle() -> Oracle {
    Oracle::new(OracleConfig { max_operators: 4, minimum_fee: 0, validity_period: 10 })
}

fn last_event(identity: &GuildIdentity) -> IdentityEvent {
    identity.last_event().unwrap()
}

fn assert_noop(
    identity: &mut GuildIdentity,
    tx: impl FnOnce(&mut GuildIdentity) -> Result<(), DispatchError>,
    error: DispatchError,
) {
    let events = identity.events().len();
    assert_eq!(tx(identity), Err(error));
    assert_eq!(identity.events().len(), events);
}

fn identity_error(e: IdentityError) -> DispatchError {
    DispatchError::Identity(e)
}

#[test]
fn test_invalid_transactions_fail() {
    let mut identity = new_identity();
    assert_noop(&mut identity, |p| p.register(Origin::Unsigned), DispatchError::BadOrigin);
}

#[test]
fn signer_checks() {
    let mut identity = new_identity();
    let mut oracle = new_oracle();
    let mut balances = Balances::new();
    for origin in [Origin::Unsigned, Origin::Root] {
        assert_noop(&mut identity, |p| p.register(origin), DispatchError::BadOrigin);
        assert_noop(&mut identity, |p| p.deregister(origin), DispatchError::BadOrigin);
        assert_noop(&mut identity, |p| p.authorize(origin, [0u8; 32], false), DispatchError::BadOrigin);
        assert_noop(&mut identity, |p| p.authorize(origin, [0u8; 32], true), DispatchError::BadOrigin);
        assert_noop(&mut identity, |p| p.link_address(origin, 0, [0u8; 8], None), DispatchError::BadOrigin);
        assert_noop(&mut identity, |p| p.unlink_address(origin, [0u8; 8], 0), DispatchError::BadOrigin);
        assert_noop(
            &mut identity,
            |p| p.link_identity(&mut oracle, &mut balances, NOW, origin, [0u8; 8], [0u8; 32]),
            DispatchError::BadOrigin,
        );
        assert_noop(&mut identity, |p| p.unlink_identity(origin, [0u8; 8]), DispatchError::BadOrigin);
    }
}

#[test]
fn register_and_deregister() {
    let mut identity = new_identity();
    let account = 99;
    // register
    assert_eq!(identity.register(Origin::Signed(account)), Ok(()));
    assert_eq!(identity.addresses(account).unwrap().len(), 0);
    assert_eq!(identity.identities(account).unwrap().len(), 0);
    assert_eq!(identity.authorities(account), Some([[0u8; 32], [0u8; 32]]));
    assert_eq!(last_event(&identity), IdentityEvent::AccountRegistered(account));
    assert_noop(
        &mut identity,
        |p| p.register(Origin::Signed(account)),
        identity_error(IdentityError::AccountAlreadyExists),
    );
    // deregister
    assert_eq!(identity.deregister(Origin::Signed(account)), Ok(()));
    assert!(identity.addresses(account).is_none());
    assert!(identity.identities(account).is_none());
    assert!(identity.authorities(account).is_none());
    assert_eq!(last_event(&identity), IdentityEvent::AccountDeregistered(account));
    assert_noop(
        &mut identity,
        |p| p.deregister(Origin::Signed(account)),
        identity_error(IdentityError::AccountDoesNotExist),
    );
    // register again
    assert_eq!(identity.register(Origin::Signed(account)), Ok(()));
}

#[test]
fn authorization() {
    let mut identity = new_identity();
    let account = 99;
    let authority_0 = [0u8; 32];
    let authority_1 = [1u8; 32];
    let authority_2 = [2u8; 32];
    let authority_3 = [3u8; 32];

    // cannot authorize without registering first
    assert_noop(
        &mut identity,
        |p| p.authorize(Origin::Signed(account), authority_1, false),
        identity_error(IdentityError::AccountDoesNotExist),
    );
    // register and authorize
    assert_eq!(identity.register(Origin::Signed(account)), Ok(()));
    assert_eq!(identity.authorize(Origin::Signed(account), authority_1, false), Ok(()));
    assert_eq!(identity.authorities(account), Some([authority_1, authority_0]));
    assert_eq!(last_event(&identity), IdentityEvent::Authorized(account, authority_1));
    // try to register the same authority to the other index
    assert_noop(
        &mut identity,
        |p| p.authorize(Origin::Signed(account), authority_1, true),
        identity_error(IdentityError::AlreadyAuthorized),
    );
    // register another authority
    assert_eq!(identity.authorize(Origin::Signed(account), authority_2, true), Ok(()));
    assert_eq!(identity.authorities(account), Some([authority_1, authority_2]));
    assert_eq!(last_event(&identity), IdentityEvent::Authorized(account, authority_2));
    assert_eq!(identity.authorize(Origin::Signed(account), authority_3, false), Ok(()));
    assert_eq!(identity.authorities(account), Some([authority_3, authority_2]));
    assert_eq!(last_event(&identity), IdentityEvent::Authorized(account, authority_3));
    assert_eq!(identity.authorize(Origin::Signed(account), authority_0, true), Ok(()));
    assert_eq!(identity.authorities(account), Some([authority_3, authority_0]));
    assert_eq!(last_event(&identity), IdentityEvent::Authorized(account, authority_0));
}

fn addresses_of(identity: &GuildIdentity, account: u64, prefix: [u8; 8]) -> Option<Vec<u64>> {
    identity.addresses(account).unwrap().get(&prefix).cloned()
}

#[test]
fn link_and_unlink_addresses() {
    let mut identity = new_identity();
    let primary_account = 99;
    let linked_account_0 = 100;
    let linked_account_1 = 101;
    let linked_account_2 = 102;
    let linked_account_3 = 103;

    // the hashed public keys of two authorities; `link_address` is handed
    // the hashed key recovered from the authority's signature
    let authority_0 = [10u8; 32];
    let authority_1 = [12u8; 32];
    let signature = Some(authority_1);
    let prefix_0 = [0u8; 8];
    let prefix_1 = [1u8; 8];
    let prefix_2 = [2u8; 8];

    // trying to link address without registering first
    assert_noop(
        &mut identity,
        |p| p.link_address(Origin::Signed(linked_account_0), primary_account, prefix_0, signature),
        identity_error(IdentityError::AccountDoesNotExist),
    );

    // register
    assert_eq!(identity.register(Origin::Signed(primary_account)), Ok(()));
    // authorize
    assert_eq!(identity.authorize(Origin::Signed(primary_account), authority_0, true), Ok(()));
    assert_eq!(identity.authorize(Origin::Signed(primary_account), authority_1, false), Ok(()));

    // link first address
    assert_eq!(
        identity.link_address(Origin::Signed(linked_account_0), primary_account, prefix_0, signature),
        Ok(())
    );
    assert_eq!(last_event(&identity), IdentityEvent::AddressLinked(primary_account, prefix_0, linked_account_0));
    // link second address under the same prefix
    assert_eq!(
        identity.link_address(Origin::Signed(linked_account_1), primary_account, prefix_0, signature),
        Ok(())
    );
    assert_eq!(last_event(&identity), IdentityEvent::AddressLinked(primary_account, prefix_0, linked_account_1));
    // try to link the same address again under the same prefix
    assert_noop(
        &mut identity,
        |p| p.link_address(Origin::Signed(linked_account_1), primary_account, prefix_0, signature),
        identity_error(IdentityError::AddressAlreadyLinked),
    );
    // try to link another address to the same prefix
    assert_noop(
        &mut identity,
        |p| p.link_address(Origin::Signed(linked_account_2), primary_account, prefix_0, signature),
        identity_error(IdentityError::MaxLinkedAddressesExceeded),
    );
    // link two addresses under another prefix
    assert_eq!(
        identity.link_address(Origin::Signed(linked_account_2), primary_account, prefix_1, signature),
        Ok(())
    );
    assert_eq!(
        identity.link_address(Origin::Signed(linked_account_3), primary_account, prefix_1, signature),
        Ok(())
    );
    // try to add a new address type
    assert_noop(
        &mut identity,
        |p| p.link_address(Origin::Signed(linked_account_0), primary_account, prefix_2, signature),
        identity_error(IdentityError::MaxLinkedAddressTypesExceeded),
    );
    // check current linked addresses
    assert_eq!(identity.addresses(primary_account).unwrap().len(), 2);
    assert_eq!(addresses_of(&identity, primary_account, prefix_0), Some(vec![linked_account_0, linked_account_1]));
    assert_eq!(addresses_of(&identity, primary_account, prefix_1), Some(vec![linked_account_2, linked_account_3]));
    // unlink an address from prefix_1 and delete prefix_0 altogether
    assert_eq!(identity.unlink_address(Origin::Signed(primary_account), prefix_1, linked_account_2), Ok(()));
    assert_eq!(
        last_event(&identity),
        IdentityEvent::AddressUnlinked(primary_account, prefix_1, linked_account_2)
    );
    assert_eq!(identity.remove_addresses(Origin::Signed(primary_account), prefix_0), Ok(()));
    assert_eq!(last_event(&identity), IdentityEvent::AddressesRemoved(primary_account, prefix_0));
    // check current linked addresses
    assert_eq!(identity.addresses(primary_account).unwrap().len(), 1);
    assert_eq!(addresses_of(&identity, primary_account, prefix_0), None);
    assert_eq!(addresses_of(&identity, primary_account, prefix_1), Some(vec![linked_account_3]));
    // link new addresses and add a new prefix
    assert_eq!(
        identity.link_address(Origin::Signed(linked_account_0), primary_account, prefix_1, signature),
        Ok(())
    );
    assert_eq!(
        identity.link_address(Origin::Signed(linked_account_2), primary_account, prefix_2, signature),
        Ok(())
    );
    assert_eq!(
        identity.link_address(Origin::Signed(linked_account_1), primary_account, prefix_2, signature),
        Ok(())
    );
    // check current linked addresses
    assert_eq!(identity.addresses(primary_account).unwrap().len(), 2);
    assert_eq!(addresses_of(&identity, primary_account, prefix_2), Some(vec![linked_account_2, linked_account_1]));
    assert_eq!(addresses_of(&identity, primary_account, prefix_1), Some(vec![linked_account_3, linked_account_0]));
    // invalid unlink/delete transactions
    assert_noop(
        &mut identity,
        |p| p.link_address(Origin::Signed(linked_account_0), primary_account, prefix_1, None),
        identity_error(IdentityError::InvalidAuthoritySignature),
    );
    assert_noop(
        &mut identity,
        |p| p.link_address(Origin::Signed(linked_account_0), primary_account, prefix_1, Some([13u8; 32])),
        identity_error(IdentityError::UnknownAuthority),
    );
    assert_noop(
        &mut identity,
        |p| p.unlink_address(Origin::Signed(linked_account_0), prefix_0, linked_account_2),
        identity_error(IdentityError::AccountDoesNotExist),
    );
    assert_noop(
        &mut identity,
        |p| p.unlink_address(Origin::Signed(primary_account), prefix_0, linked_account_2),
        identity_error(IdentityError::AddressPrefixDoesNotExist),
    );
    assert_noop(
        &mut identity,
        |p| p.unlink_address(Origin::Signed(primary_account), prefix_1, linked_account_2),
        identity_error(IdentityError::AddressDoesNotExist),
    );
    assert_noop(
        &mut identity,
        |p| p.remove_addresses(Origin::Signed(linked_account_0), prefix_1),
        identity_error(IdentityError::AccountDoesNotExist),
    );
    assert_noop(
        &mut identity,
        |p| p.remove_addresses(Origin::Signed(primary_account), prefix_0),
        identity_error(IdentityError::AddressPrefixDoesNotExist),
    );
}

#[test]
fn link_and_unlink_identities() {
    let mut identity = new_identity();
    let mut oracle = new_oracle();
    let mut balances = Balances::new();
    let operator = 10;
    let account = 99;
    let prefix_0 = [0u8; 8];
    let prefix_1 = [1u8; 8];
    let prefix_2 = [3u8; 8];
    let prefix_3 = [3u8; 8];
    let identity_0 = [0u8; 32];
    let identity_1 = [1u8; 32];
    let identity_2 = [2u8; 32];
    let mut request_id = 0;
    // register oracle operator
    assert_eq!(oracle.register_operator(Origin::Root, operator), Ok(()));
    assert_eq!(oracle.activate_operator(Origin::Signed(operator)), Ok(()));
    // try link request without registering first
    assert_eq!(
        identity.link_identity(&mut oracle, &mut balances, NOW, Origin::Signed(account), prefix_0, identity_0),
        Err(identity_error(IdentityError::AccountDoesNotExist))
    );
    // register
    assert_eq!(identity.register(Origin::Signed(account)), Ok(()));
    // link identity request
    assert_eq!(
        identity.link_identity(&mut oracle, &mut balances, NOW, Origin::Signed(account), prefix_0, identity_0),
        Ok(())
    );
    // oracle callback
    assert_noop(
        &mut identity,
        |p| p.callback(&mut oracle, &mut balances, Origin::Signed(account), 0, true),
        DispatchError::Oracle(OracleError::WrongOperator),
    );
    assert_eq!(identity.callback(&mut oracle, &mut balances, Origin::Signed(operator), request_id, true), Ok(()));
    assert_eq!(last_event(&identity), IdentityEvent::IdentityLinked(account, prefix_0, identity_0));
    // try link to the same prefix
    assert_eq!(
        identity.link_identity(&mut oracle, &mut balances, NOW, Origin::Signed(account), prefix_0, identity_1),
        Err(identity_error(IdentityError::IdentityAlreadyLinked))
    );
    // send two more identity link requests
    assert_eq!(
        identity.link_identity(&mut oracle, &mut balances, NOW, Origin::Signed(account), prefix_1, identity_1),
        Ok(())
    );
    assert_eq!(
        identity.link_identity(&mut oracle, &mut balances, NOW, Origin::Signed(account), prefix_2, identity_2),
        Ok(())
    );
    // ensure that only one identity was linked so far
    assert_eq!(identity.identities(account).unwrap().len(), 1);
    assert_eq!(identity.identities(account).unwrap().get(&prefix_0), Some(&identity_0));
    // send two oracle responses
    request_id += 1;
    assert_noop(
        &mut identity,
        |p| p.callback(&mut oracle, &mut balances, Origin::Signed(operator), request_id, false),
        identity_error(IdentityError::IdentityCheckFailed),
    );
    request_id += 1;
    assert_eq!(identity.callback(&mut oracle, &mut balances, Origin::Signed(operator), request_id, true), Ok(()));
    assert_eq!(identity.identities(account).unwrap().len(), 2);
    // resend previous response
    request_id -= 1;
    assert_eq!(identity.callback(&mut oracle, &mut balances, Origin::Signed(operator), request_id, true), Ok(()));
    // check storage
    assert_eq!(identity.identities(account).unwrap().len(), 3);
    assert_eq!(identity.identities(account).unwrap().values(), vec![identity_0, identity_1, identity_2]);
    // unlink identity
    assert_eq!(identity.unlink_identity(Origin::Signed(account), prefix_1), Ok(()));
    assert_eq!(last_event(&identity), IdentityEvent::IdentityUnlinked(account, prefix_1, identity_1));
    assert_eq!(identity.identities(account).unwrap().len(), 2);
    assert!(identity.identities(account).unwrap().get(&prefix_1).is_none());
    // link again
    assert_eq!(
        identity.link_identity(&mut oracle, &mut balances, NOW, Origin::Signed(account), prefix_1, identity_1),
        Ok(())
    );
    request_id += 2;
    assert_eq!(identity.callback(&mut oracle, &mut balances, Origin::Signed(operator), request_id, true), Ok(()));
    assert_eq!(identity.identities(account).unwrap().len(), 3);
    // invalid transactions
    assert_eq!(
        identity.link_identity(&mut oracle, &mut balances, NOW, Origin::Signed(account), prefix_3, identity_2),
        Err(identity_error(IdentityError::MaxLinkedIdentitiesExceeded))
    );
    assert_eq!(
        identity.link_identity(&mut oracle, &mut balances, NOW, Origin::Signed(255), prefix_3, identity_2),
        Err(identity_error(IdentityError::AccountDoesNotExist))
    );
    assert_noop(
        &mut identity,
        |p| p.unlink_identity(Origin::Signed(account), [11u8; 8]),
        identity_error(IdentityError::IdentityDoesNotExist),
    );
    assert_noop(
        &mut identity,
        |p| p.unlink_identity(Origin::Signed(255), prefix_0),
        identity_error(IdentityError::AccountDoesNotExist),
    );
    assert_noop(
        &mut identity,
        |p| p.callback(&mut oracle, &mut balances, Origin::Signed(operator), 123, true),
        identity_error(IdentityError::InvalidOracleAnswer),
    );
}

#[test]
fn link_request_answered_once() {
    let mut identity = new_identity();
    let mut oracle = new_oracle();
    let mut balances = Balances::new();
    assert_eq!(oracle.register_operator(Origin::Root, 10), Ok(()));
    assert_eq!(oracle.activate_operator(Origin::Signed(10)), Ok(()));
    assert_eq!(identity.register(Origin::Signed(7)), Ok(()));
    assert_eq!(
        identity.link_identity(&mut oracle, &mut balances, NOW, Origin::Signed(7), [5u8; 8], [6u8; 32]),
        Ok(())
    );
    let request = oracle.request(0).unwrap();
    assert_eq!(request.pallet_index, PALLET_INDEX);
    assert_eq!(request.requester, 7);
    assert_eq!(identity.callback(&mut oracle, &mut balances, Origin::Signed(10), 0, true), Ok(()));
    assert_eq!(identity.identities(7).unwrap().get(&[5u8; 8]), Some(&[6u8; 32]));
    assert!(oracle.request(0).is_none());
    assert_eq!(
        identity.callback(&mut oracle, &mut balances, Origin::Signed(10), 0, true),
        Err(identity_error(IdentityError::InvalidOracleAnswer))
    );
}

#[test]
fn unlink_after_link_restores_addresses() {
    let mut identity = new_identity();
    assert_eq!(identity.register(Origin::Signed(1)), Ok(()));
    assert_eq!(identity.authorize(Origin::Signed(1), [9u8; 32], false), Ok(()));
    assert_eq!(identity.link_address(Origin::Signed(2), 1, [4u8; 8], Some([9u8; 32])), Ok(()));
    assert_eq!(identity.link_address(Origin::Signed(3), 1, [4u8; 8], Some([9u8; 32])), Ok(()));
    assert_eq!(identity.unlink_address(Origin::Signed(1), [4u8; 8], 3), Ok(()));
    assert_eq!(addresses_of(&identity, 1, [4u8; 8]), Some(vec![2]));
    // unlinking the last address of a prefix keeps the prefix, empty
    assert_eq!(identity.unlink_address(Origin::Signed(1), [4u8; 8], 2), Ok(()));
    assert_eq!(addresses_of(&identity, 1, [4u8; 8]), Some(vec![]));
}

#[test]
fn authorize_same_slot_again() {
    let mut identity = new_identity();
    let account = 7;
    assert_eq!(identity.register(Origin::Signed(account)), Ok(()));
    assert_eq!(identity.authorize(Origin::Signed(account), [5u8; 32], true), Ok(()));
    assert_eq!(last_event(&identity), IdentityEvent::Authorized(account, [5u8; 32]));
    // re-authorizing the authority already in the written slot succeeds
    assert_eq!(identity.authorize(Origin::Signed(account), [5u8; 32], true), Ok(()));
    assert_eq!(identity.authorities(account), Some([[0u8; 32], [5u8; 32]]));
    // putting it into the other slot is refused
    assert_noop(
        &mut identity,
        |p| p.authorize(Origin::Signed(account), [5u8; 32], false),
        identity_error(IdentityError::AlreadyAuthorized),
    );
}
