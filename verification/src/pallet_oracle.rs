//! # A pallet to interact with oracle nodes
//!
//! Requests for external data are handed to oracle operators. The root
//! registers operators; a registered operator activates itself and is then
//! given requests in turn. A requester pays a fee that is reserved when the
//! request is made and goes to the operator when the answer arrives.
//! Requests that are not answered within the validity period are dropped.
use vstd::prelude::*;
use crate::balances::Balances;
use crate::collections::StorageMap;
use crate::dispatch::{
    ensure_root, ensure_signed, signer_of, AccountId, Balance, BlockNumber, DispatchError,
    Origin, OracleError,
};

verus! {

/// Identifier of a request.
pub type RequestIdentifier = u64;

/// Identifier of the operator whose turn is next.
pub type OperatorIdentifier = u64;

/// Constants of the pallet.
#[derive(PartialEq, Eq, Structural, Clone, Copy, Debug)]
pub struct OracleConfig {
    pub max_operators: u32,
    /// Minimum fee paid for all requests to disincentivize spam requests
    pub minimum_fee: Balance,
    /// Period during which a request is valid
    pub validity_period: BlockNumber,
}

/// A request waiting for its answer.
#[derive(Debug)]
pub struct GenericRequest {
    pub requester: AccountId,
    pub operator: AccountId,
    pub block_number: BlockNumber,
    pub fee: Balance,
    pub pallet_index: u32,
    pub data: Vec<u8>,
}

/// Plain-value description of a request.
pub struct RequestView {
    pub requester: AccountId,
    pub operator: AccountId,
    pub block_number: BlockNumber,
    pub fee: Balance,
    pub pallet_index: u32,
    pub data: Seq<u8>,
}

impl GenericRequest {
    pub open spec fn view(&self) -> RequestView {
        RequestView {
            requester: self.requester,
            operator: self.operator,
            block_number: self.block_number,
            fee: self.fee,
            pallet_index: self.pallet_index,
            data: self.data@,
        }
    }

    /// A copy of the request.
    pub fn duplicate(&self) -> (r: GenericRequest)
        ensures
            r.view() == self.view(),
    {
        GenericRequest {
            requester: self.requester,
            operator: self.operator,
            block_number: self.block_number,
            fee: self.fee,
            pallet_index: self.pallet_index,
            data: copy_bytes(&self.data),
        }
    }
}

/// A copy of a byte vector.
pub fn copy_bytes(v: &Vec<u8>) -> (r: Vec<u8>)
    ensures
        r@ == v@,
{
    let mut r: Vec<u8> = Vec::new();
    let mut i: usize = 0;
    while i < v.len()
        invariant
            i <= v@.len(),
            r@ == v@.subrange(0, i as int),
        decreases v@.len() - i,
    {
        r.push(v[i]);
        i = i + 1;
        assert(r@ =~= v@.subrange(0, i as int));
    }
    assert(v@.subrange(0, v@.len() as int) =~= v@);
    r
}

/// Events of the pallet.
#[derive(PartialEq, Eq, Structural, Clone, Copy, Debug)]
pub enum Event {
    /// A request has been accepted. Corresponding fee payment is reserved
    OracleRequest {
        request_id: RequestIdentifier,
        operator: AccountId,
        pallet_index: u32,
        fee: Balance,
    },
    /// A request has been answered. Corresponding fee payment is transferred
    OracleAnswer { request_id: RequestIdentifier, operator: AccountId },
    /// A new operator has been registered by the root
    OperatorRegistered(AccountId),
    /// An existing operator has been deregistered by the root
    OperatorDeregistered(AccountId),
    /// A registered operator has been activated
    OperatorActivated(AccountId),
    /// A registered operator has been deactivated
    OperatorDeactivated(AccountId),
    /// A request didn't receive any result in time
    KillRequest(RequestIdentifier),
    KillRequestFailed(RequestIdentifier),
}

/// The storage of the pallet.
pub struct Pallet {
    config: OracleConfig,
    registered_operators: StorageMap<AccountId, ()>,
    num_registered_operators: u32,
    active_operators: Vec<AccountId>,
    next_request_identifier: RequestIdentifier,
    next_operator: OperatorIdentifier,
    requests: StorageMap<RequestIdentifier, GenericRequest>,
    events: Vec<Event>,
}

/// The abstract state of the pallet.
pub struct OracleState {
    pub operators: Set<AccountId>,
    pub active: Seq<AccountId>,
    pub next_request_identifier: RequestIdentifier,
    pub next_operator: OperatorIdentifier,
    pub requests: Map<RequestIdentifier, RequestView>,
    pub events: Seq<Event>,
}

/// A sequence in strictly increasing order.
pub open spec fn strictly_sorted(s: Seq<AccountId>) -> bool {
    forall|i: int, j: int| 0 <= i < j < s.len() ==> s[i] < s[j]
}

/// `s` with `x` put at its place in the order.
pub open spec fn sorted_insert(s: Seq<AccountId>, x: AccountId) -> Seq<AccountId> {
    let k = s.filter(|y: AccountId| y < x).len();
    s.insert(k as int, x)
}

impl Pallet {
    pub closed spec fn view(&self) -> OracleState {
        OracleState {
            operators: self.registered_operators.view().dom(),
            active: self.active_operators@,
            next_request_identifier: self.next_request_identifier,
            next_operator: self.next_operator,
            requests: self.requests.view().map_values(|r: GenericRequest| r.view()),
            events: self.events@,
        }
    }

    /// The storage invariant: the operator count is the number of registered
    /// operators and within the maximum; the active operators are registered
    /// and kept in strictly increasing order.
    pub closed spec fn wf(&self) -> bool {
        &&& self.registered_operators.wf()
        &&& self.requests.wf()
        &&& self.num_registered_operators == self.registered_operators.view().len()
        &&& self.num_registered_operators <= self.config.max_operators
        &&& strictly_sorted(self.active_operators@)
        &&& forall|i: int|
            0 <= i < self.active_operators@.len() ==> self.registered_operators.view().contains_key(
                #[trigger] self.active_operators@[i],
            )
    }

    /// The constants the pallet was made with.
    pub closed spec fn cfg(&self) -> OracleConfig {
        self.config
    }

    /// The constants the pallet was made with.
    pub fn config(&self) -> (c: OracleConfig)
        ensures
            c == self.cfg(),
    {
        self.config
    }

    /// The state after `operator` answered request `request_id`.
    pub open spec fn after_callback(
        &self,
        operator: AccountId,
        request_id: RequestIdentifier,
    ) -> OracleState {
        OracleState {
            requests: self.view().requests.remove(request_id),
            events: self.view().events.push(Event::OracleAnswer { request_id, operator }),
            ..self.view()
        }
    }

    pub open spec fn spec_num_registered_operators(&self) -> nat {
        self.view().operators.len()
    }

    pub fn new(config: OracleConfig) -> (p: Self)
        ensures
            p.wf(),
            p.cfg() == config,
            p.view().operators == Set::<AccountId>::empty(),
            p.view().active == Seq::<AccountId>::empty(),
            p.view().requests == Map::<RequestIdentifier, RequestView>::empty(),
            p.view().next_request_identifier == 0,
            p.view().next_operator == 0,
            p.view().events == Seq::<Event>::empty(),
    {
        let p = Pallet {
            config,
            registered_operators: StorageMap::new(),
            num_registered_operators: 0,
            active_operators: Vec::new(),
            next_request_identifier: 0,
            next_operator: 0,
            requests: StorageMap::new(),
            events: Vec::new(),
        };
        proof {
            p.registered_operators.lemma_view();
            assert(p.view().requests =~= Map::<RequestIdentifier, RequestView>::empty());
        }
        p
    }

    proof fn lemma_wf(&self)
        requires
            self.wf(),
        ensures
            self.view().operators.finite(),
            self.num_registered_operators == self.view().operators.len(),
            self.view().operators.len() <= self.cfg().max_operators,
            forall|i: int|
                0 <= i < self.view().active.len() ==> self.view().operators.contains(
                    #[trigger] self.view().active[i],
                ),
            strictly_sorted(self.view().active),
    {
        self.registered_operators.lemma_view();
    }

    // ---------------------------------------------------------------- calls

    /// Why `register_operator` is refused, if it is.
    pub open spec fn register_operator_error(&self, origin: Origin, operator: AccountId) -> Option<
        DispatchError,
    > {
        if !(origin is Root) {
            Some(DispatchError::BadOrigin)
        } else if self.view().operators.len() >= self.cfg().max_operators {
            Some(DispatchError::Oracle(OracleError::MaxOperatorsRegistered))
        } else if self.view().operators.contains(operator) {
            Some(DispatchError::Oracle(OracleError::OperatorAlreadyRegistered))
        } else {
            None
        }
    }

    /// Register a new Operator.
    pub fn register_operator(&mut self, origin: Origin, operator: AccountId) -> (r: Result<
        (),
        DispatchError,
    >)
        requires
            old(self).wf(),
        ensures
            final(self).wf(),
            final(self).cfg() == old(self).cfg(),
            match old(self).register_operator_error(origin, operator) {
                Some(e) => r == Err::<(), DispatchError>(e) && *final(self) == *old(self),
                None => r is Ok && final(self).view() == (OracleState {
                    operators: old(self).view().operators.insert(operator),
                    events: old(self).view().events.push(Event::OperatorRegistered(operator)),
                    ..old(self).view()
                }),
            },
    {
        proof {
            self.lemma_wf();
        }
        ensure_root(origin)?;
        if self.num_registered_operators >= self.config.max_operators {
            return Err(DispatchError::Oracle(OracleError::MaxOperatorsRegistered));
        }
        if self.registered_operators.contains_key(&operator) {
            return Err(DispatchError::Oracle(OracleError::OperatorAlreadyRegistered));
        }
        self.registered_operators.insert(operator, ());
        self.num_registered_operators = self.num_registered_operators + 1;
        self.events.push(Event::OperatorRegistered(operator));
        proof {
            self.registered_operators.lemma_view();
            assert(self.view().operators =~= old(self).view().operators.insert(operator));
            assert(self.view().requests =~= old(self).view().requests);
        }
        Ok(())
    }

    /// Why `deregister_operator` is refused, if it is.
    pub open spec fn deregister_operator_error(&self, origin: Origin, operator: AccountId) -> Option<
        DispatchError,
    > {
        if !(origin is Root) {
            Some(DispatchError::BadOrigin)
        } else if !self.view().operators.contains(operator) {
            Some(DispatchError::Oracle(OracleError::UnknownOperator))
        } else {
            None
        }
    }

    /// Deregisters an already registered Operator; it is no longer active
    /// either.
    pub fn deregister_operator(&mut self, origin: Origin, operator: AccountId) -> (r: Result<
        (),
        DispatchError,
    >)
        requires
            old(self).wf(),
        ensures
            final(self).wf(),
            final(self).cfg() == old(self).cfg(),
            match old(self).deregister_operator_error(origin, operator) {
                Some(e) => r == Err::<(), DispatchError>(e) && *final(self) == *old(self),
                None => r is Ok && final(self).view() == (OracleState {
                    operators: old(self).view().operators.remove(operator),
                    active: old(self).view().active.remove_value(operator),
                    events: old(self).view().events.push(Event::OperatorDeregistered(operator)),
                    ..old(self).view()
                }),
            },
    {
        proof {
            self.lemma_wf();
        }
        ensure_root(origin)?;
        if !self.registered_operators.contains_key(&operator) {
            return Err(DispatchError::Oracle(OracleError::UnknownOperator));
        }
        self.registered_operators.remove(&operator);
        let ghost old_active = self.active_operators@;
        match find_sorted(&self.active_operators, operator) {
            Ok(index) => {
                self.active_operators.remove(index);
                proof {
                    lemma_remove_value_sorted(old_active, index as int);
                }
            },
            Err(_) => {
                proof {
                    lemma_remove_value_absent(old_active, operator);
                }
            },
        }
        self.num_registered_operators = self.num_registered_operators - 1;
        self.events.push(Event::OperatorDeregistered(operator));
        proof {
            self.registered_operators.lemma_view();
            old(self).registered_operators.lemma_view();
            assert(self.view().operators =~= old(self).view().operators.remove(operator));
            assert(self.view().requests =~= old(self).view().requests);
            lemma_remove_keeps_sorted(old_active, operator);
            assert forall|i: int| 0 <= i < self.active_operators@.len() implies self.registered_operators.view().contains_key(
                #[trigger] self.active_operators@[i],
            ) by {
                lemma_remove_value_members(old_active, operator, i);
            }
        }
        Ok(())
    }

    /// Why `activate_operator` is refused, if it is.
    pub open spec fn activate_operator_error(&self, origin: Origin) -> Option<DispatchError> {
        match signer_of(origin) {
            None => Some(DispatchError::BadOrigin),
            Some(operator) => if !self.view().operators.contains(operator) {
                Some(DispatchError::Oracle(OracleError::UnknownOperator))
            } else if self.view().active.contains(operator) {
                Some(DispatchError::Oracle(OracleError::OperatorAlreadyActivated))
            } else {
                None
            },
        }
    }

    /// A registered operator activates itself: it is put in its place in the
    /// ordered list of active operators.
    pub fn activate_operator(&mut self, origin: Origin) -> (r: Result<(), DispatchError>)
        requires
            old(self).wf(),
        ensures
            final(self).wf(),
            final(self).cfg() == old(self).cfg(),
            match old(self).activate_operator_error(origin) {
                Some(e) => r == Err::<(), DispatchError>(e) && *final(self) == *old(self),
                None => r is Ok && final(self).view() == (OracleState {
                    active: sorted_insert(old(self).view().active, signer_of(origin)->0),
                    events: old(self).view().events.push(
                        Event::OperatorActivated(signer_of(origin)->0),
                    ),
                    ..old(self).view()
                }),
            },
    {
        proof {
            self.lemma_wf();
        }
        let operator = ensure_signed(origin)?;
        if !self.registered_operators.contains_key(&operator) {
            return Err(DispatchError::Oracle(OracleError::UnknownOperator));
        }
        match find_sorted(&self.active_operators, operator) {
            Ok(_) => {
                return Err(DispatchError::Oracle(OracleError::OperatorAlreadyActivated));
            },
            Err(index) => {
                let ghost old_active = self.active_operators@;
                self.active_operators.insert(index, operator);
                proof {
                    lemma_sorted_insert(old_active, operator, index as int);
                    assert forall|i: int| 0 <= i < self.active_operators@.len() implies self.registered_operators.view().contains_key(
                        #[trigger] self.active_operators@[i],
                    ) by {
                        if i < index {
                            assert(self.active_operators@[i] == old_active[i]);
                        } else if i > index {
                            assert(self.active_operators@[i] == old_active[i - 1]);
                        }
                    }
                }
            },
        }
        self.events.push(Event::OperatorActivated(operator));
        proof {
            assert(self.view().requests =~= old(self).view().requests);
        }
        Ok(())
    }

    /// Why `deactivate_operator` is refused, if it is.
    pub open spec fn deactivate_operator_error(&self, origin: Origin) -> Option<DispatchError> {
        match signer_of(origin) {
            None => Some(DispatchError::BadOrigin),
            Some(operator) => if !self.view().operators.contains(operator) {
                Some(DispatchError::Oracle(OracleError::UnknownOperator))
            } else if !self.view().active.contains(operator) {
                Some(DispatchError::Oracle(OracleError::UnknownOperator))
            } else {
                None
            },
        }
    }

    /// An active operator deactivates itself.
    pub fn deactivate_operator(&mut self, origin: Origin) -> (r: Result<(), DispatchError>)
        requires
            old(self).wf(),
        ensures
            final(self).wf(),
            final(self).cfg() == old(self).cfg(),
            match old(self).deactivate_operator_error(origin) {
                Some(e) => r == Err::<(), DispatchError>(e) && *final(self) == *old(self),
                None => r is Ok && final(self).view() == (OracleState {
                    active: old(self).view().active.remove_value(signer_of(origin)->0),
                    events: old(self).view().events.push(
                        Event::OperatorDeactivated(signer_of(origin)->0),
                    ),
                    ..old(self).view()
                }),
            },
    {
        proof {
            self.lemma_wf();
        }
        let operator = ensure_signed(origin)?;
        if !self.registered_operators.contains_key(&operator) {
            return Err(DispatchError::Oracle(OracleError::UnknownOperator));
        }
        match find_sorted(&self.active_operators, operator) {
            Ok(index) => {
                let ghost old_active = self.active_operators@;
                self.active_operators.remove(index);
                proof {
                    lemma_remove_value_sorted(old_active, index as int);
                    lemma_remove_keeps_sorted(old_active, operator);
                    assert forall|i: int| 0 <= i < self.active_operators@.len() implies self.registered_operators.view().contains_key(
                        #[trigger] self.active_operators@[i],
                    ) by {
                        lemma_remove_value_members(old_active, operator, i);
                    }
                }
            },
            Err(_) => {
                return Err(DispatchError::Oracle(OracleError::UnknownOperator));
            },
        }
        self.events.push(Event::OperatorDeactivated(operator));
        proof {
            assert(self.view().requests =~= old(self).view().requests);
        }
        Ok(())
    }

    /// The operator whose turn it is.
    pub open spec fn next_in_turn(&self) -> AccountId
        recommends
            self.view().active.len() > 0,
    {
        self.view().active[(self.view().next_operator % (self.view().active.len() as u64)) as int]
    }

    /// Why `initiate_request` is refused, if it is.
    pub open spec fn initiate_request_error(
        &self,
        balances: &Balances,
        origin: Origin,
        fee: Balance,
    ) -> Option<DispatchError> {
        match signer_of(origin) {
            None => Some(DispatchError::BadOrigin),
            Some(requester) => if self.view().active.len() == 0 {
                Some(DispatchError::Oracle(OracleError::NoActiveOperators))
            } else if fee < self.cfg().minimum_fee {
                Some(DispatchError::Oracle(OracleError::InsufficientFee))
            } else if balances.spec_free(requester) < fee {
                Some(DispatchError::Balances(crate::dispatch::BalancesError::InsufficientBalance))
            } else {
                None
            },
        }
    }

    /// The state after a request of `requester` was accepted at block `now`.
    pub open spec fn after_request(
        &self,
        requester: AccountId,
        now: BlockNumber,
        pallet_index: u32,
        data: Seq<u8>,
        fee: Balance,
    ) -> OracleState {
        let old = self.view();
        let operator = self.next_in_turn();
        OracleState {
            next_operator: (if old.next_operator == u64::MAX {
                0
            } else {
                old.next_operator + 1
            }) as u64,
            next_request_identifier: (if old.next_request_identifier == u64::MAX {
                0
            } else {
                old.next_request_identifier + 1
            }) as u64,
            requests: old.requests.insert(
                old.next_request_identifier,
                RequestView {
                    requester,
                    operator,
                    block_number: now,
                    fee,
                    pallet_index,
                    data,
                },
            ),
            events: old.events.push(
                Event::OracleRequest {
                    request_id: old.next_request_identifier,
                    operator,
                    pallet_index,
                    fee,
                },
            ),
            ..old
        }
    }

    /// Hands a request to the operator whose turn it is, in the order of the
    /// active operators. The fee must be at least the minimum fee; it is
    /// reserved from the requester's balance until the request is answered.
    pub fn initiate_request(
        &mut self,
        balances: &mut Balances,
        now: BlockNumber,
        origin: Origin,
        pallet_index: u32,
        data: Vec<u8>,
        fee: Balance,
    ) -> (r: Result<(), DispatchError>)
        requires
            old(self).wf(),
            old(balances).wf(),
        ensures
            final(self).wf(),
            final(balances).wf(),
            final(self).cfg() == old(self).cfg(),
            match old(self).initiate_request_error(&*old(balances), origin, fee) {
                Some(e) => r == Err::<(), DispatchError>(e) && *final(self) == *old(self)
                    && *final(balances) == *old(balances),
                None => r is Ok && final(self).view() == old(self).after_request(
                    signer_of(origin)->0,
                    now,
                    pallet_index,
                    data@,
                    fee,
                ) && final(balances).view() == old(balances).view().insert(
                    signer_of(origin)->0,
                    crate::balances::AccountData {
                        free: (old(balances).spec_free(signer_of(origin)->0) - fee) as Balance,
                        reserved: (old(balances).spec_reserved(signer_of(origin)->0)
                            + fee) as Balance,
                    },
                ) && final(balances).spec_free(signer_of(origin)->0) == old(balances).spec_free(
                    signer_of(origin)->0,
                ) - fee && final(balances).spec_reserved(signer_of(origin)->0) == old(
                    balances,
                ).spec_reserved(signer_of(origin)->0) + fee,
            },
    {
        proof {
            self.lemma_wf();
        }
        let requester = ensure_signed(origin)?;
        if self.active_operators.len() == 0 {
            return Err(DispatchError::Oracle(OracleError::NoActiveOperators));
        }
        let n = self.active_operators.len() as u64;
        let index = (self.next_operator % n) as usize;
        let operator = self.active_operators[index];
        if fee < self.config.minimum_fee {
            return Err(DispatchError::Oracle(OracleError::InsufficientFee));
        }
        balances.reserve(requester, fee)?;
        self.next_operator = self.next_operator.wrapping_add(1);
        let request_id = self.next_request_identifier;
        self.next_request_identifier = request_id.wrapping_add(1);
        let request = GenericRequest {
            requester,
            operator,
            pallet_index,
            data,
            fee,
            block_number: now,
        };
        self.requests.insert(request_id, request);
        self.events.push(Event::OracleRequest { request_id, operator, pallet_index, fee });
        proof {
            assert(self.view().requests =~= old(self).after_request(
                requester,
                now,
                pallet_index,
                data@,
                fee,
            ).requests);
        }
        Ok(())
    }

    /// Why `callback` is refused, if it is.
    pub open spec fn callback_error(
        &self,
        balances: &Balances,
        origin: Origin,
        operator: AccountId,
        request_id: RequestIdentifier,
    ) -> Option<DispatchError> {
        if !(origin is Root) {
            Some(DispatchError::BadOrigin)
        } else if !self.view().requests.contains_key(request_id) {
            Some(DispatchError::Oracle(OracleError::UnknownRequest))
        } else {
            let request = self.view().requests[request_id];
            if request.operator != operator {
                Some(DispatchError::Oracle(OracleError::WrongOperator))
            } else if request.fee > balances.spec_reserved(request.requester) {
                Some(DispatchError::Oracle(OracleError::InsufficientReservedBalance))
            } else if request.requester != request.operator && balances.spec_free(request.operator)
                + balances.spec_reserved(request.operator) + request.fee > Balance::MAX {
                Some(DispatchError::Balances(crate::dispatch::BalancesError::Overflow))
            } else {
                None
            }
        }
    }

    /// The balances after the fee of `request` went to its operator.
    pub open spec fn paid(balances: Map<AccountId, crate::balances::AccountData>, request: RequestView) -> Map<
        AccountId,
        crate::balances::AccountData,
    > {
        let s = crate::balances::account_of(balances, request.requester);
        let o = crate::balances::account_of(balances, request.operator);
        if request.requester == request.operator {
            balances.insert(
                request.requester,
                crate::balances::AccountData {
                    free: (s.free + request.fee) as Balance,
                    reserved: (s.reserved - request.fee) as Balance,
                },
            )
        } else {
            balances.insert(
                request.requester,
                crate::balances::AccountData {
                    free: s.free,
                    reserved: (s.reserved - request.fee) as Balance,
                },
            ).insert(
                request.operator,
                crate::balances::AccountData {
                    free: (o.free + request.fee) as Balance,
                    reserved: o.reserved,
                },
            )
        }
    }

    /// Checks that `callback` would succeed, without changing anything.
    pub fn check_callback(
        &self,
        balances: &Balances,
        origin: Origin,
        operator: AccountId,
        request_id: RequestIdentifier,
    ) -> (r: Result<(), DispatchError>)
        requires
            self.wf(),
            balances.wf(),
        ensures
            match self.callback_error(balances, origin, operator, request_id) {
                Some(e) => r == Err::<(), DispatchError>(e),
                None => r is Ok,
            },
    {
        ensure_root(origin)?;
        let request = match self.requests.get(&request_id) {
            Some(request) => request,
            None => {
                return Err(DispatchError::Oracle(OracleError::UnknownRequest));
            },
        };
        if request.operator != operator {
            return Err(DispatchError::Oracle(OracleError::WrongOperator));
        }
        if request.fee > balances.reserved_balance(request.requester) {
            return Err(DispatchError::Oracle(OracleError::InsufficientReservedBalance));
        }
        if request.requester != request.operator {
            let free = balances.free_balance(request.operator);
            let reserved = balances.reserved_balance(request.operator);
            if reserved > Balance::MAX - free || request.fee > Balance::MAX - free - reserved {
                return Err(DispatchError::Balances(crate::dispatch::BalancesError::Overflow));
            }
        }
        Ok(())
    }

    /// Called by the root with the operator that answered a request: the
    /// reserved fee goes to the operator and the request is removed.
    pub fn callback(
        &mut self,
        balances: &mut Balances,
        origin: Origin,
        operator: AccountId,
        request_id: RequestIdentifier,
    ) -> (r: Result<(), DispatchError>)
        requires
            old(self).wf(),
            old(balances).wf(),
        ensures
            final(self).wf(),
            final(balances).wf(),
            final(self).cfg() == old(self).cfg(),
            match old(self).callback_error(&*old(balances), origin, operator, request_id) {
                Some(e) => r == Err::<(), DispatchError>(e) && *final(self) == *old(self)
                    && *final(balances) == *old(balances),
                None => r is Ok && final(self).view() == old(self).after_callback(
                    operator,
                    request_id,
                ) && final(balances).view() == Self::paid(
                    old(balances).view(),
                    old(self).view().requests[request_id],
                ),
            },
    {
        self.check_callback(balances, origin, operator, request_id)?;
        let request = match self.requests.remove(&request_id) {
            Some(request) => request,
            None => {
                return Err(DispatchError::Oracle(OracleError::UnknownRequest));
            },
        };
        let _ = balances.repatriate_reserved(request.requester, request.operator, request.fee);
        self.events.push(Event::OracleAnswer { request_id, operator });
        proof {
            assert(self.view().requests =~= old(self).view().requests.remove(request_id));
        }
        Ok(())
    }

    /// Whether a request made at block `made` has expired at block `now`.
    pub open spec fn expired(&self, made: BlockNumber, now: BlockNumber) -> bool {
        now > made + self.cfg().validity_period
    }

    /// Removes the requests that were made more than the validity period
    /// before block `n`.
    pub fn on_finalize(&mut self, n: BlockNumber)
        requires
            old(self).wf(),
        ensures
            final(self).wf(),
            final(self).cfg() == old(self).cfg(),
            final(self).view() == (OracleState {
                requests: old(self).view().requests.restrict(
                    old(self).view().requests.dom().filter(
                        |id: RequestIdentifier|
                            !old(self).expired(old(self).view().requests[id].block_number, n),
                    ),
                ),
                ..old(self).view()
            }),
    {
        let ids = self.requests.keys();
        let ghost old_requests = old(self).view().requests;
        let mut i: usize = 0;
        while i < ids.len()
            invariant
                self.wf(),
                self.cfg() == old(self).cfg(),
                i <= ids@.len(),
                ids@.to_set() == old_requests.dom(),
                ids@.no_duplicates(),
                old_requests == old(self).view().requests,
                self.view() == (OracleState { requests: self.view().requests, ..old(self).view() }),
                forall|k: RequestIdentifier| #[trigger]
                    self.view().requests.contains_key(k) <==> (old_requests.contains_key(k)
                        && !(ids@.subrange(0, i as int).contains(k) && old(self).expired(
                        old_requests[k].block_number,
                        n,
                    ))),
                forall|k: RequestIdentifier| #[trigger]
                    self.view().requests.contains_key(k) ==> self.view().requests[k]
                        == old_requests[k],
            decreases ids@.len() - i,
        {
            let id = ids[i];
            proof {
                assert(ids@.to_set().contains(id));
                assert(!ids@.subrange(0, i as int).contains(id)) by {
                    if ids@.subrange(0, i as int).contains(id) {
                        let j = choose|j: int| 0 <= j < i && ids@.subrange(0, i as int)[j] == id;
                        assert(ids@[j] == ids@[i as int]);
                    }
                }
            }
            proof {
                assert(self.view().requests.contains_key(id));
                assert(self.view().requests[id] == old_requests[id]);
                assert(self.requests.view().contains_key(id));
                assert(self.requests.view()[id].view() == old_requests[id]);
            }
            let expired = match self.requests.get(&id) {
                Some(request) => match request.block_number.checked_add(
                    self.config.validity_period,
                ) {
                    Some(deadline) => n > deadline,
                    None => false,
                },
                None => false,
            };
            let ghost before = self.view().requests;
            if expired {
                self.requests.remove(&id);
            }
            proof {
                assert(expired == old(self).expired(old_requests[id].block_number, n));
                let done = ids@.subrange(0, i as int);
                assert forall|k: RequestIdentifier|
                    ids@.subrange(0, i + 1).contains(k) <==> (done.contains(k) || k == id) by {
                    assert(ids@.subrange(0, i + 1) =~= done.push(id));
                    if done.contains(k) {
                        let j = choose|j: int| 0 <= j < done.len() && done[j] == k;
                        assert(ids@.subrange(0, i + 1)[j] == k);
                    }
                    if k == id {
                        assert(ids@.subrange(0, i + 1)[i as int] == k);
                    }
                    if ids@.subrange(0, i + 1).contains(k) && k != id {
                        let later = ids@.subrange(0, i + 1);
                        let j = choose|j: int| 0 <= j < later.len() && later[j] == k;
                        assert(done[j] == k);
                    }
                }
                assert(self.view().requests =~= if expired {
                    before.remove(id)
                } else {
                    before
                });
            }
            i = i + 1;
        }
        proof {
            assert(ids@.subrange(0, ids@.len() as int) =~= ids@);
            assert(self.view().requests =~= old_requests.restrict(
                old_requests.dom().filter(
                    |id: RequestIdentifier| !old(self).expired(old_requests[id].block_number, n),
                ),
            ));
            assert(self.view() =~= (OracleState {
                requests: old(self).view().requests.restrict(
                    old(self).view().requests.dom().filter(
                        |id: RequestIdentifier|
                            !old(self).expired(old(self).view().requests[id].block_number, n),
                    ),
                ),
                ..old(self).view()
            }));
        }
    }

    // -------------------------------------------------------------- getters

    pub fn operator(&self, who: AccountId) -> (r: Option<()>)
        requires
            self.wf(),
        ensures
            r is Some <==> self.view().operators.contains(who),
    {
        if self.registered_operators.contains_key(&who) {
            Some(())
        } else {
            None
        }
    }

    pub fn num_registered_operators(&self) -> (n: u32)
        requires
            self.wf(),
        ensures
            n == self.view().operators.len(),
    {
        proof {
            self.lemma_wf();
        }
        self.num_registered_operators
    }

    pub fn active_operators(&self) -> (v: Vec<AccountId>)
        ensures
            v@ == self.view().active,
    {
        let mut v: Vec<AccountId> = Vec::new();
        let mut i: usize = 0;
        while i < self.active_operators.len()
            invariant
                i <= self.active_operators@.len(),
                v@ == self.active_operators@.subrange(0, i as int),
            decreases self.active_operators@.len() - i,
        {
            v.push(self.active_operators[i]);
            i = i + 1;
            assert(v@ =~= self.active_operators@.subrange(0, i as int));
        }
        assert(self.active_operators@.subrange(0, i as int) =~= self.active_operators@);
        v
    }

    pub fn request_identifier(&self) -> (id: RequestIdentifier)
        ensures
            id == self.view().next_request_identifier,
    {
        self.next_request_identifier
    }

    pub fn next_operator(&self) -> (id: OperatorIdentifier)
        ensures
            id == self.view().next_operator,
    {
        self.next_operator
    }

    pub fn request(&self, request_id: RequestIdentifier) -> (r: Option<GenericRequest>)
        requires
            self.wf(),
        ensures
            match r {
                Some(request) => self.view().requests.contains_key(request_id)
                    && self.view().requests[request_id] == request.view(),
                None => !self.view().requests.contains_key(request_id),
            },
    {
        match self.requests.get(&request_id) {
            Some(request) => Some(request.duplicate()),
            None => None,
        }
    }

    /// The events deposited so far, oldest first.
    pub fn events(&self) -> (v: &Vec<Event>)
        ensures
            v@ == self.view().events,
    {
        &self.events
    }

    /// The last event deposited, if any.
    pub fn last_event(&self) -> (e: Option<Event>)
        ensures
            self.view().events.len() == 0 ==> e is None,
            self.view().events.len() > 0 ==> e == Some(self.view().events.last()),
    {
        if self.events.len() == 0 {
            None
        } else {
            Some(self.events[self.events.len() - 1])
        }
    }
}


// ---------------------------------------------------------------- laws

/// The operator registry stays within its bounds: no more operators than
/// the maximum, each active operator registered, the active ones in
/// strictly increasing order (so none twice).
pub proof fn law_operators_bounded(p: &Pallet)
    requires
        p.wf(),
    ensures
        p.view().operators.finite(),
        p.view().operators.len() <= p.cfg().max_operators,
        forall|i: int|
            0 <= i < p.view().active.len() ==> p.view().operators.contains(
                #[trigger] p.view().active[i],
            ),
        strictly_sorted(p.view().active),
{
    p.lemma_wf();
}

/// Once the answer to a request is accepted, the request is gone: a second
/// answer to it, by any operator, is refused as an unknown request.
pub proof fn law_answered_request_is_gone(
    p: &Pallet,
    q: &Pallet,
    balances: &Balances,
    operator: AccountId,
    other: AccountId,
    request_id: RequestIdentifier,
)
    requires
        q.view() == p.after_callback(operator, request_id),
    ensures
        q.callback_error(balances, Origin::Root, other, request_id) == Some(
            DispatchError::Oracle(OracleError::UnknownRequest),
        ),
{
}

/// A deregistered operator is neither registered nor active any more.
pub proof fn law_deregistered_operator_is_inactive(p: &Pallet, operator: AccountId)
    requires
        p.wf(),
    ensures
        !p.view().operators.remove(operator).contains(operator),
        !p.view().active.remove_value(operator).contains(operator),
{
    p.lemma_wf();
    let s = p.view().active;
    s.index_of_first_ensures(operator);
    match s.index_of_first(operator) {
        Some(k) => {
            let t = s.remove(k);
            if t.contains(operator) {
                let i = choose|i: int| 0 <= i < t.len() && t[i] == operator;
                let o = if i < k { i } else { i + 1 };
                assert(t[i] == s[o]);
            }
        },
        None => {},
    }
}

/// A request goes to the operator whose turn it is, and the next request
/// goes to the next active operator in order, wrapping around the list.
pub proof fn law_requests_go_round(
    p: &Pallet,
    q: &Pallet,
    requester: AccountId,
    now: BlockNumber,
    pallet_index: u32,
    data: Seq<u8>,
    fee: Balance,
)
    requires
        p.view().active.len() > 0,
        p.view().next_operator < u64::MAX,
        q.view() == p.after_request(requester, now, pallet_index, data, fee),
    ensures
        q.view().requests[p.view().next_request_identifier].operator == p.next_in_turn(),
        q.next_in_turn() == p.view().active[((p.view().next_operator + 1) % (
            p.view().active.len() as int)) as int],
{
    let n = p.view().next_operator;
    let len = p.view().active.len();
    assert(p.active_operators@.len() == p.active_operators.len());
    assert(q.view().next_operator == n + 1);
    assert(q.view().active == p.view().active);
    assert((len as u64) as int == len);
    assert(((n + 1) as u64 % (len as u64)) as int == (n + 1) % (len as int));
}

/// When an answer is paid, the fee leaves the requester's reserved balance
/// and arrives in the operator's free balance; nothing else changes.
pub proof fn law_fee_moves_to_operator(
    balances: Map<AccountId, crate::balances::AccountData>,
    request: RequestView,
)
    requires
        request.requester != request.operator,
        crate::balances::account_of(balances, request.requester).reserved >= request.fee,
        crate::balances::account_of(balances, request.operator).free + request.fee <= Balance::MAX,
    ensures
        ({
            let after = Pallet::paid(balances, request);
            let s0 = crate::balances::account_of(balances, request.requester);
            let o0 = crate::balances::account_of(balances, request.operator);
            let s1 = crate::balances::account_of(after, request.requester);
            let o1 = crate::balances::account_of(after, request.operator);
            &&& s1.free == s0.free
            &&& s1.reserved + request.fee == s0.reserved
            &&& o1.free == o0.free + request.fee
            &&& o1.reserved == o0.reserved
            &&& forall|a: AccountId|
                a != request.requester && a != request.operator ==> crate::balances::account_of(
                    after,
                    a,
                ) == #[trigger] crate::balances::account_of(balances, a)
        }),
{
}

// ------------------------------------------------------------ sorted lists

/// Position of `x` in the strictly sorted `v`, or the position where it
/// would go.
fn find_sorted(v: &Vec<AccountId>, x: AccountId) -> (r: Result<usize, usize>)
    requires
        strictly_sorted(v@),
    ensures
        match r {
            Ok(i) => i < v@.len() && v@[i as int] == x,
            Err(i) => i <= v@.len() && !v@.contains(x) && (forall|j: int|
                0 <= j < i ==> v@[j] < x) && (forall|j: int| i <= j < v@.len() ==> v@[j] > x),
        },
{
    let mut i: usize = 0;
    while i < v.len()
        invariant
            i <= v@.len(),
            strictly_sorted(v@),
            forall|j: int| 0 <= j < i ==> v@[j] < x,
        decreases v@.len() - i,
    {
        if v[i] == x {
            return Ok(i);
        }
        if v[i] > x {
            return Err(i);
        }
        i = i + 1;
    }
    Err(i)
}

proof fn lemma_sorted_insert(s: Seq<AccountId>, x: AccountId, i: int)
    requires
        strictly_sorted(s),
        0 <= i <= s.len(),
        forall|j: int| 0 <= j < i ==> s[j] < x,
        forall|j: int| i <= j < s.len() ==> s[j] > x,
    ensures
        strictly_sorted(s.insert(i, x)),
        sorted_insert(s, x) == s.insert(i, x),
{
    let f = |y: AccountId| y < x;
    assert(s.subrange(0, i).filter(f) =~= s.subrange(0, i)) by {
        lemma_filter_all(s.subrange(0, i), f);
    }
    assert(s.subrange(i, s.len() as int).filter(f) =~= Seq::<AccountId>::empty()) by {
        lemma_filter_none(s.subrange(i, s.len() as int), f);
    }
    assert(s =~= s.subrange(0, i) + s.subrange(i, s.len() as int));
    Seq::filter_distributes_over_add(s.subrange(0, i), s.subrange(i, s.len() as int), f);
    assert(s.filter(f).len() == i);
}

proof fn lemma_filter_all(s: Seq<AccountId>, f: spec_fn(AccountId) -> bool)
    requires
        forall|j: int| 0 <= j < s.len() ==> f(s[j]),
    ensures
        s.filter(f) == s,
    decreases s.len(),
{
    reveal(Seq::filter);
    if s.len() > 0 {
        lemma_filter_all(s.drop_last(), f);
        assert(s.drop_last().push(s.last()) =~= s);
    }
}

proof fn lemma_filter_none(s: Seq<AccountId>, f: spec_fn(AccountId) -> bool)
    requires
        forall|j: int| 0 <= j < s.len() ==> !f(s[j]),
    ensures
        s.filter(f) == Seq::<AccountId>::empty(),
    decreases s.len(),
{
    reveal(Seq::filter);
    if s.len() > 0 {
        lemma_filter_none(s.drop_last(), f);
    }
    assert(s.filter(f) =~= Seq::<AccountId>::empty());
}

proof fn lemma_remove_value_sorted(s: Seq<AccountId>, i: int)
    requires
        strictly_sorted(s),
        0 <= i < s.len(),
    ensures
        s.remove_value(s[i]) == s.remove(i),
{
    assert(s.index_of_first(s[i]) == Some(i)) by {
        s.index_of_first_ensures(s[i]);
        let r = s.index_of_first(s[i]);
        if r != Some(i) {
            let k = r->0;
            assert(s[k] == s[i]);
        }
    }
}

proof fn lemma_remove_value_absent(s: Seq<AccountId>, x: AccountId)
    requires
        !s.contains(x),
    ensures
        s.remove_value(x) == s,
{
    s.index_of_first_ensures(x);
}

proof fn lemma_remove_keeps_sorted(s: Seq<AccountId>, x: AccountId)
    requires
        strictly_sorted(s),
    ensures
        strictly_sorted(s.remove_value(x)),
{
    s.index_of_first_ensures(x);
    match s.index_of_first(x) {
        Some(i) => {
            let t = s.remove(i);
            assert forall|a: int, b: int| 0 <= a < b < t.len() implies t[a] < t[b] by {
                let oa = if a < i { a } else { a + 1 };
                let ob = if b < i { b } else { b + 1 };
                assert(t[a] == s[oa]);
                assert(t[b] == s[ob]);
            }
        },
        None => {},
    }
}

proof fn lemma_remove_value_members(s: Seq<AccountId>, x: AccountId, i: int)
    requires
        strictly_sorted(s),
        0 <= i < s.remove_value(x).len(),
    ensures
        s.contains(s.remove_value(x)[i]),
        s.remove_value(x)[i] != x,
{
    s.index_of_first_ensures(x);
    match s.index_of_first(x) {
        Some(k) => {
            let t = s.remove(k);
            let o = if i < k { i } else { i + 1 };
            assert(t[i] == s[o]);
            assert(s[o] != s[k]);
        },
        None => {
            assert(s.remove_value(x)[i] == s[i]);
        },
    }
}


/// Only the root manages the operator registry, an operator is registered
/// once, and only registered operators take part.
pub proof fn law_operator_registry_rules(p: &Pallet, who: AccountId, operator: AccountId)
    ensures
        p.register_operator_error(Origin::Signed(who), operator) == Some(DispatchError::BadOrigin),
        p.deregister_operator_error(Origin::Signed(who), operator) == Some(DispatchError::BadOrigin),
        p.view().operators.contains(operator) ==> p.register_operator_error(Origin::Root, operator)
            is Some,
        !p.view().operators.contains(operator) && p.view().operators.len() < p.cfg().max_operators
            ==> p.register_operator_error(Origin::Root, operator) is None,
        !p.view().operators.contains(who) ==> p.activate_operator_error(Origin::Signed(who)) == Some(
            DispatchError::Oracle(OracleError::UnknownOperator),
        ),
        !p.view().active.contains(who) ==> p.deactivate_operator_error(Origin::Signed(who)) is Some,
        p.view().operators.contains(who) && !p.view().active.contains(who)
            ==> p.activate_operator_error(Origin::Signed(who)) is None,
{
}

/// Only the operator a request was handed to answers it, through the root.
pub proof fn law_only_assigned_operator_answers(
    p: &Pallet,
    balances: &Balances,
    operator: AccountId,
    request_id: RequestIdentifier,
)
    ensures
        p.callback_error(balances, Origin::Signed(operator), operator, request_id) == Some(
            DispatchError::BadOrigin,
        ),
        p.view().requests.contains_key(request_id) && p.view().requests[request_id].operator
            != operator ==> p.callback_error(balances, Origin::Root, operator, request_id) == Some(
            DispatchError::Oracle(OracleError::WrongOperator),
        ),
{
}

/// A request needs an active operator, at least the minimum fee, and a
/// free balance that covers the fee; with all three it is accepted.
pub proof fn law_request_acceptance(p: &Pallet, balances: &Balances, who: AccountId, fee: Balance)
    ensures
        p.view().active.len() == 0 ==> p.initiate_request_error(balances, Origin::Signed(who), fee)
            == Some(DispatchError::Oracle(OracleError::NoActiveOperators)),
        p.view().active.len() > 0 && fee < p.cfg().minimum_fee ==> p.initiate_request_error(
            balances,
            Origin::Signed(who),
            fee,
        ) == Some(DispatchError::Oracle(OracleError::InsufficientFee)),
        p.view().active.len() > 0 && fee >= p.cfg().minimum_fee && balances.spec_free(who) < fee
            ==> p.initiate_request_error(balances, Origin::Signed(who), fee) is Some,
        p.view().active.len() > 0 && fee >= p.cfg().minimum_fee && balances.spec_free(who) >= fee
            ==> p.initiate_request_error(balances, Origin::Signed(who), fee) is None,
{
}
} // verus!
