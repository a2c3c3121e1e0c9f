//! Origins of calls and the errors that a call can be refused with.
use vstd::prelude::*;

verus! {

/// An account of the runtime.
pub type AccountId = u64;

/// A balance of the runtime's currency.
pub type Balance = u64;

/// A block number.
pub type BlockNumber = u64;

/// Who dispatches a call.
#[derive(PartialEq, Eq, Structural, Clone, Copy, Debug)]
pub enum Origin {
    /// The superuser.
    Root,
    /// A signed transaction of an account.
    Signed(AccountId),
    /// An unsigned transaction.
    Unsigned,
}

/// Errors of the balances component.
#[derive(PartialEq, Eq, Structural, Clone, Copy, Debug)]
pub enum BalancesError {
    InsufficientBalance,
    Overflow,
}

/// Errors of the oracle pallet.
#[derive(PartialEq, Eq, Structural, Clone, Copy, Debug)]
pub enum OracleError {
    /// No oracle operator has been activated yet
    NoActiveOperators,
    /// An operator is already registered.
    OperatorAlreadyRegistered,
    /// An operator is already activated.
    OperatorAlreadyActivated,
    /// Callback cannot be deserialized
    UnknownCallback,
    /// Manipulating an unknown operator
    UnknownOperator,
    /// Manipulating an unknown request
    UnknownRequest,
    /// Not the expected operator
    WrongOperator,
    /// Fee provided does not match minimum required fee
    InsufficientFee,
    /// Reserved balance is less than the specified fee for the request
    InsufficientReservedBalance,
    /// Max allowed number of operators already registered
    MaxOperatorsRegistered,
}

/// Errors of the identity pallet.
#[derive(PartialEq, Eq, Structural, Clone, Copy, Debug)]
pub enum IdentityError {
    AccountDoesNotExist,
    AccountAlreadyExists,
    AddressAlreadyLinked,
    AddressDoesNotExist,
    AddressPrefixDoesNotExist,
    AlreadyAuthorized,
    IdentityAlreadyLinked,
    IdentityDoesNotExist,
    IdentityCheckFailed,
    InvalidAuthoritySignature,
    InvalidOracleAnswer,
    MaxLinkedAddressesExceeded,
    MaxLinkedAddressTypesExceeded,
    MaxLinkedIdentitiesExceeded,
    UnknownAuthority,
}

/// Errors of the guild pallet.
#[derive(PartialEq, Eq, Structural, Clone, Copy, Debug)]
pub enum GuildError {
    AccessDenied,
    GuildAlreadyExists,
    GuildDoesNotExist,
    RoleAlreadyExists,
    RoleDoesNotExist,
    NoPalletIndex,
    IdNotRegistered,
    InvalidAllowlistLen,
    InvalidJoinRequest,
    InvalidOracleAnswer,
    InvalidOracleRequest,
    UserNotRegistered,
    UserNotJoined,
    CodecError,
    MaxRolesPerGuildExceeded,
    MaxReqsPerRoleExceeded,
    MaxSerializedLenExceeded,
    MissingAllowlistProof,
}

/// Why a call was refused.
#[derive(PartialEq, Eq, Structural, Clone, Copy, Debug)]
pub enum DispatchError {
    BadOrigin,
    Balances(BalancesError),
    Oracle(OracleError),
    Identity(IdentityError),
    Guild(GuildError),
}

/// The signer of a signed origin.
pub open spec fn signer_of(origin: Origin) -> Option<AccountId> {
    match origin {
        Origin::Signed(who) => Some(who),
        _ => None,
    }
}

/// The account that signed the call, or `BadOrigin` for any other origin.
pub fn ensure_signed(origin: Origin) -> (r: Result<AccountId, DispatchError>)
    ensures
        match signer_of(origin) {
            Some(who) => r == Ok::<AccountId, DispatchError>(who),
            None => r == Err::<AccountId, DispatchError>(DispatchError::BadOrigin),
        },
{
    match origin {
        Origin::Signed(who) => Ok(who),
        _ => Err(DispatchError::BadOrigin),
    }
}

/// Succeeds for the root origin only, else `BadOrigin`.
pub fn ensure_root(origin: Origin) -> (r: Result<(), DispatchError>)
    ensures
        r is Ok <==> origin is Root,
        r is Err ==> r == Err::<(), DispatchError>(DispatchError::BadOrigin),
{
    match origin {
        Origin::Root => Ok(()),
        _ => Err(DispatchError::BadOrigin),
    }
}

} // verus!
