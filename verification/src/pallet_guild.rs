//! # The guild pallet
//!
//! Accounts create guilds and the roles of their guilds. A role may be free,
//! gated by an allowlist, by membership in another guild or role, by
//! off-chain requirements that an oracle checks, or by a combination of a
//! filter and requirements. Registered accounts join and leave roles; anyone
//! may ask the oracle to check again whether a member still qualifies.
use vstd::prelude::*;
use crate::balances::{AccountData, Balances};
use crate::codec::{encode_accounts, encode_u64, le_bytes, scale_accounts};
use crate::collections::StorageMap;
use crate::common::{
    allowlist_prefix, offchain_allowlist_key, requirements_view, Guild, GuildView, Role, RoleView,
    SerializedRequirements,
};
use crate::dispatch::{
    ensure_root, ensure_signed, signer_of, AccountId, BlockNumber, DispatchError, GuildError,
    Origin,
};
use crate::filter::{Filter, Guild as GuildFilter, Logic};
use crate::pallet_guild_identity as identity;
use crate::pallet_oracle::{self as oracle, RequestIdentifier};
use crate::requests::{AccessCheckRequest, GuildName, RoleName};

verus! {

/// Identifier of a guild.
pub type GuildId = crate::hash::Hash;

/// Identifier of a role.
pub type RoleId = crate::hash::Hash;

/// A source of random identifiers, such as the runtime's randomness pallet.
pub trait Randomness {
    /// A random value for `subject`.
    fn random(&self, subject: &[u8]) -> crate::hash::Hash;
}

/// Constants of the pallet.
#[derive(PartialEq, Eq, Structural, Clone, Copy, Debug)]
pub struct GuildConfig {
    pub max_allowlist_len: u32,
    pub max_roles_per_guild: u32,
    pub max_reqs_per_role: u32,
    pub max_serialized_len: u32,
    /// Index of the pallet in the runtime, carried by its oracle requests.
    pub pallet_index: u32,
}

/// Events of the pallet.
#[derive(Debug, PartialEq, Eq)]
pub enum Event {
    /// The allowlist of a role was written to off-chain storage under this
    /// key.
    AllowlistWritten(Vec<u8>),
    GuildCreated(AccountId, GuildName),
    RoleCreated(AccountId, GuildName, RoleName),
    RoleAssigned(AccountId, GuildName, RoleName),
    RoleStripped(AccountId, GuildName, RoleName),
}

/// The storage of the pallet.
pub struct Pallet {
    config: GuildConfig,
    nonce: u64,
    guild_ids: StorageMap<GuildName, GuildId>,
    role_ids: StorageMap<(GuildId, RoleName), RoleId>,
    guilds: StorageMap<GuildId, Guild<AccountId>>,
    roles: StorageMap<RoleId, Role>,
    members: StorageMap<(RoleId, AccountId), bool>,
    offchain: Vec<(Vec<u8>, Vec<u8>)>,
    events: Vec<Event>,
}

/// The abstract state of the pallet.
pub struct GuildState {
    pub nonce: u64,
    pub guild_ids: Map<GuildName, GuildId>,
    pub role_ids: Map<(GuildId, RoleName), RoleId>,
    pub guilds: Map<GuildId, GuildView<AccountId>>,
    pub roles: Map<RoleId, RoleView>,
    pub members: Set<(RoleId, AccountId)>,
    /// The writes to off-chain storage, as key and value, oldest first.
    pub offchain: Seq<(Seq<u8>, Seq<u8>)>,
    pub events: Seq<Event>,
}

/// What the access rules of a role decide for an account.
pub enum Access {
    Granted,
    Denied,
    /// Only the oracle can tell.
    Oracle,
}

/// The decision for an account that passes the filter or not
/// (`filter_access`), given how the filter combines with the requirements
/// and whether the role has requirements.
pub open spec fn access_outcome(filter_access: bool, logic: Logic, requirements: bool) -> Access {
    if requirements && filter_access == (logic is And) {
        Access::Oracle
    } else if filter_access {
        Access::Granted
    } else {
        Access::Denied
    }
}

/// The nonce after one more identifier was drawn.
pub open spec fn next_nonce(n: u64) -> u64 {
    if n == u64::MAX {
        0
    } else {
        (n + 1) as u64
    }
}

/// The request that asks the oracle whether `who` may hold role `r` of
/// guild `g`.
pub open spec fn access_request(who: AccountId, g: GuildName, r: RoleName) -> AccessCheckRequest {
    AccessCheckRequest { requester: who, account: who, guild_name: g, role_name: r }
}

/// A filter that is combined with the requirements by `Or`.
pub open spec fn or_filter(f: Option<Filter>) -> bool {
    match f {
        Some(Filter::Guild(_, Logic::Or)) => true,
        Some(Filter::Allowlist(_, Logic::Or, _)) => true,
        _ => false,
    }
}

/// Whether `account` holds one of `roles[i..]` of guild `gid`, going
/// through them in order and giving up at the first that has no id.
pub open spec fn roles_scan(
    s: GuildState,
    gid: GuildId,
    roles: Seq<RoleName>,
    account: AccountId,
    i: int,
) -> bool
    decreases roles.len() - i,
{
    if i < 0 || i >= roles.len() {
        false
    } else if !s.role_ids.contains_key((gid, roles[i])) {
        false
    } else if s.members.contains((s.role_ids[(gid, roles[i])], account)) {
        true
    } else {
        roles_scan(s, gid, roles, account, i + 1)
    }
}

/// Whether `account` passes a guild filter: it holds the filter's role, or
/// any role of the filter's guild when no role is named.
pub open spec fn parent_access(s: GuildState, account: AccountId, parent: GuildFilter) -> bool {
    if !s.guild_ids.contains_key(parent.name) {
        false
    } else {
        let gid = s.guild_ids[parent.name];
        match parent.role {
            Some(pr) => s.role_ids.contains_key((gid, pr)) && s.members.contains(
                (s.role_ids[(gid, pr)], account),
            ),
            None => s.guilds.contains_key(gid) && roles_scan(s, gid, s.guilds[gid].roles, account, 0),
        }
    }
}

impl GuildState {
    /// The id of role `r` of guild `g`.
    pub open spec fn role_key(self, g: GuildName, r: RoleName) -> RoleId {
        self.role_ids[(self.guild_ids[g], r)]
    }

    /// The state after `who` was given role `rid`, named `r` in guild `g`.
    pub open spec fn assigned(self, rid: RoleId, who: AccountId, g: GuildName, r: RoleName) -> GuildState {
        GuildState {
            members: self.members.insert((rid, who)),
            events: self.events.push(Event::RoleAssigned(who, g, r)),
            ..self
        }
    }

    /// The state after `who` lost role `rid`, named `r` in guild `g`.
    pub open spec fn stripped(self, rid: RoleId, who: AccountId, g: GuildName, r: RoleName) -> GuildState {
        GuildState {
            members: self.members.remove((rid, who)),
            events: self.events.push(Event::RoleStripped(who, g, r)),
            ..self
        }
    }

    /// The state after `signer` created role `r` of guild `g` with id `rid`.
    pub open spec fn role_created(
        self,
        signer: AccountId,
        g: GuildName,
        r: RoleName,
        filter: Option<Filter>,
        requirements: Option<(Seq<Seq<u8>>, Seq<u8>)>,
        rid: RoleId,
    ) -> GuildState {
        let gid = self.guild_ids[g];
        GuildState {
            nonce: next_nonce(self.nonce),
            role_ids: self.role_ids.insert((gid, r), rid),
            guilds: self.guilds.insert(gid, GuildView { roles: self.guilds[gid].roles.push(r), ..self.guilds[gid] }),
            roles: self.roles.insert(rid, RoleView { filter, requirements }),
            events: self.events.push(Event::RoleCreated(signer, g, r)),
            ..self
        }
    }
}

/// The plain-value requirements of a role, if any.
pub open spec fn opt_requirements_view(o: Option<SerializedRequirements>) -> Option<(Seq<Seq<u8>>, Seq<u8>)> {
    match o {
        Some(r) => Some(requirements_view(r)),
        None => None,
    }
}

/// The serialized requirements of `o`, which holds some.
pub open spec fn req_list(o: Option<(Seq<Seq<u8>>, Seq<u8>)>) -> Seq<Seq<u8>> {
    let (reqs, logic) = o->0;
    reqs
}

/// The serialized logic of `o`, which holds some.
pub open spec fn req_logic(o: Option<(Seq<Seq<u8>>, Seq<u8>)>) -> Seq<u8> {
    let (reqs, logic) = o->0;
    logic
}

/// Why the oracle refuses a request of `who` for an access check.
pub open spec fn oracle_request_error(oracle: &oracle::Pallet, balances: &Balances, who: AccountId) -> Option<DispatchError> {
    oracle.initiate_request_error(balances, Origin::Signed(who), oracle.cfg().minimum_fee)
}

/// The oracle and the balances once `who` asked, at block `now`, for a check
/// of its access to role `r` of guild `g`: the minimum fee is reserved.
pub open spec fn oracle_requested(
    oracle_before: &oracle::Pallet,
    oracle_after: &oracle::Pallet,
    balances_before: &Balances,
    balances_after: &Balances,
    now: BlockNumber,
    pallet_index: u32,
    who: AccountId,
    g: GuildName,
    r: RoleName,
) -> bool {
    let fee = oracle_before.cfg().minimum_fee;
    &&& oracle_after.view() == oracle_before.after_request(
        who,
        now,
        pallet_index,
        access_request(who, g, r).spec_encode(),
        fee,
    )
    &&& balances_after.view() == balances_before.view().insert(
        who,
        AccountData {
            free: (balances_before.spec_free(who) - fee) as u64,
            reserved: (balances_before.spec_reserved(who) + fee) as u64,
        },
    )
    &&& balances_after.spec_free(who) == balances_before.spec_free(who) - fee
    &&& balances_after.spec_reserved(who) == balances_before.spec_reserved(who) + fee
}

/// Why evaluating the access of `who` fails, if it does.
pub open spec fn evaluate_error(
    oracle: &oracle::Pallet,
    balances: &Balances,
    who: AccountId,
    filter_access: bool,
    logic: Logic,
    requirements: bool,
) -> Option<DispatchError> {
    match access_outcome(filter_access, logic, requirements) {
        Access::Granted => None,
        Access::Denied => Some(DispatchError::Guild(GuildError::AccessDenied)),
        Access::Oracle => oracle_request_error(oracle, balances, who),
    }
}

impl Pallet {
    pub closed spec fn view(&self) -> GuildState {
        GuildState {
            nonce: self.nonce,
            guild_ids: self.guild_ids.view(),
            role_ids: self.role_ids.view(),
            guilds: self.guilds.view().map_values(|g: Guild<AccountId>| g.view()),
            roles: self.roles.view().map_values(|r: Role| r.view()),
            members: self.members.view().dom(),
            offchain: self.offchain@.map_values(|e: (Vec<u8>, Vec<u8>)| (e.0@, e.1@)),
            events: self.events@,
        }
    }

    /// The constants the pallet was made with.
    pub closed spec fn cfg(&self) -> GuildConfig {
        self.config
    }

    /// The storage invariant: the maps are well formed, a membership is
    /// stored as `true`, and no guild has more than the allowed number of
    /// roles.
    pub closed spec fn wf(&self) -> bool {
        &&& self.guild_ids.wf()
        &&& self.role_ids.wf()
        &&& self.guilds.wf()
        &&& self.roles.wf()
        &&& self.members.wf()
        &&& forall|k: (RoleId, AccountId)| #[trigger]
            self.members.view().contains_key(k) ==> self.members.view()[k]
        &&& forall|gid: GuildId| #[trigger]
            self.guilds.view().contains_key(gid) ==> self.guilds.view()[gid].roles@.len()
                <= self.config.max_roles_per_guild
    }

    /// No guild has more roles than the pallet allows.
    pub proof fn law_roles_per_guild_bounded(&self, gid: GuildId)
        requires
            self.wf(),
            self.view().guilds.contains_key(gid),
        ensures
            self.view().guilds[gid].roles.len() <= self.cfg().max_roles_per_guild,
    {
    }

    pub fn new(config: GuildConfig) -> (p: Self)
        ensures
            p.wf(),
            p.cfg() == config,
            p.view().nonce == 0,
            p.view().guild_ids == Map::<GuildName, GuildId>::empty(),
            p.view().role_ids == Map::<(GuildId, RoleName), RoleId>::empty(),
            p.view().guilds == Map::<GuildId, GuildView<AccountId>>::empty(),
            p.view().roles == Map::<RoleId, RoleView>::empty(),
            p.view().members == Set::<(RoleId, AccountId)>::empty(),
            p.view().offchain == Seq::<(Seq<u8>, Seq<u8>)>::empty(),
            p.view().events == Seq::<Event>::empty(),
    {
        let p = Pallet {
            config,
            nonce: 0,
            guild_ids: StorageMap::new(),
            role_ids: StorageMap::new(),
            guilds: StorageMap::new(),
            roles: StorageMap::new(),
            members: StorageMap::new(),
            offchain: Vec::new(),
            events: Vec::new(),
        };
        proof {
            assert(p.view().guilds =~= Map::<GuildId, GuildView<AccountId>>::empty());
            assert(p.view().roles =~= Map::<RoleId, RoleView>::empty());
            assert(p.view().members =~= Set::<(RoleId, AccountId)>::empty());
            assert(p.view().offchain =~= Seq::<(Seq<u8>, Seq<u8>)>::empty());
        }
        p
    }

    // ------------------------------------------------------------- helpers

    /// The SCALE encoding of the nonce, which is then incremented.
    fn get_and_increment_nonce(&mut self) -> (n: Vec<u8>)
        ensures
            n@ == le_bytes(old(self).nonce),
            *final(self) == (Pallet { nonce: next_nonce(old(self).nonce), ..*old(self) }),
    {
        let nonce = self.nonce;
        self.nonce = nonce.wrapping_add(1);
        encode_u64(nonce)
    }

    /// A fresh identifier: the random value for the encoded nonce.
    fn get_random_uuid<R: Randomness>(&mut self, rng: &R) -> (id: crate::hash::Hash)
        ensures
            *final(self) == (Pallet { nonce: next_nonce(old(self).nonce), ..*old(self) }),
    {
        let nonce = self.get_and_increment_nonce();
        rng.random(nonce.as_slice())
    }

    /// Why the role `r` of guild `g` cannot be used by `account`, if it
    /// cannot: the guild or the role does not exist, or the account is not
    /// registered with the identity pallet.
    pub open spec fn checked_role_error(
        &self,
        identity: &identity::Pallet,
        account: AccountId,
        g: GuildName,
        r: RoleName,
    ) -> Option<DispatchError> {
        let s = self.view();
        if !s.guild_ids.contains_key(g) {
            Some(DispatchError::Guild(GuildError::GuildDoesNotExist))
        } else if !s.role_ids.contains_key((s.guild_ids[g], r)) {
            Some(DispatchError::Guild(GuildError::RoleDoesNotExist))
        } else if !identity.view().addresses.contains_key(account) {
            Some(DispatchError::Guild(GuildError::UserNotRegistered))
        } else if !s.roles.contains_key(s.role_key(g, r)) {
            Some(DispatchError::Guild(GuildError::RoleDoesNotExist))
        } else {
            None
        }
    }

    /// The id, filter and whether there are requirements of role `r` of
    /// guild `g`, for a registered `account`.
    fn checked_role(
        &self,
        identity: &identity::Pallet,
        account: AccountId,
        g: GuildName,
        r: RoleName,
    ) -> (res: Result<(RoleId, Option<Filter>, bool), DispatchError>)
        requires
            self.wf(),
            identity.wf(),
        ensures
            match self.checked_role_error(identity, account, g, r) {
                Some(e) => res == Err::<(RoleId, Option<Filter>, bool), DispatchError>(e),
                None => {
                    let rid = self.view().role_key(g, r);
                    res == Ok::<(RoleId, Option<Filter>, bool), DispatchError>(
                        (
                            rid,
                            self.view().roles[rid].filter,
                            self.view().roles[rid].requirements is Some,
                        ),
                    )
                },
            },
    {
        let guild_id = match self.guild_ids.get(&g) {
            Some(id) => *id,
            None => {
                return Err(DispatchError::Guild(GuildError::GuildDoesNotExist));
            },
        };
        let role_id = match self.role_ids.get(&(guild_id, r)) {
            Some(id) => *id,
            None => {
                return Err(DispatchError::Guild(GuildError::RoleDoesNotExist));
            },
        };
        if identity.addresses(account).is_none() {
            return Err(DispatchError::Guild(GuildError::UserNotRegistered));
        }
        match self.roles.get(&role_id) {
            Some(role) => Ok((role_id, role.filter, role.requirements.is_some())),
            None => Err(DispatchError::Guild(GuildError::RoleDoesNotExist)),
        }
    }

    /// Whether `account` passes the guild filter `parent`.
    fn check_parent_role(&self, account: AccountId, parent: GuildFilter) -> (b: bool)
        requires
            self.wf(),
        ensures
            b == parent_access(self.view(), account, parent),
    {
        let guild_id = match self.guild_ids.get(&parent.name) {
            Some(id) => *id,
            None => {
                return false;
            },
        };
        match parent.role {
            Some(parent_role_name) => {
                let role_id = match self.role_ids.get(&(guild_id, parent_role_name)) {
                    Some(id) => *id,
                    None => {
                        return false;
                    },
                };
                self.members.contains_key(&(role_id, account))
            },
            None => {
                let guild = match self.guilds.get(&guild_id) {
                    Some(guild) => guild,
                    None => {
                        return false;
                    },
                };
                let ghost roles = guild.roles@;
                proof {
                    assert(self.view().guilds[guild_id].roles == roles);
                }
                let mut i: usize = 0;
                while i < guild.roles.len()
                    invariant
                        self.wf(),
                        roles == guild.roles@,
                        parent.role is None,
                        self.view().guild_ids.contains_key(parent.name),
                        self.view().guild_ids[parent.name] == guild_id,
                        self.view().guilds.contains_key(guild_id),
                        self.view().guilds[guild_id].roles == roles,
                        i <= roles.len(),
                        roles_scan(self.view(), guild_id, roles, account, 0) == roles_scan(
                            self.view(),
                            guild_id,
                            roles,
                            account,
                            i as int,
                        ),
                    decreases roles.len() - i,
                {
                    let role_name = guild.roles[i];
                    assert(roles[i as int] == role_name);
                    let role_id = match self.role_ids.get(&(guild_id, role_name)) {
                        Some(id) => *id,
                        None => {
                            return false;
                        },
                    };
                    if self.members.contains_key(&(role_id, account)) {
                        return true;
                    }
                    i = i + 1;
                }
                false
            },
        }
    }

    /// Asks the oracle whether `who` may hold role `r` of guild `g`; the
    /// minimum fee is reserved from `who`.
    fn dispatch_oracle_request(
        &self,
        oracle: &mut oracle::Pallet,
        balances: &mut Balances,
        now: BlockNumber,
        who: AccountId,
        g: GuildName,
        r: RoleName,
    ) -> (res: Result<(), DispatchError>)
        requires
            old(oracle).wf(),
            old(balances).wf(),
        ensures
            final(oracle).wf(),
            final(balances).wf(),
            final(oracle).cfg() == old(oracle).cfg(),
            match oracle_request_error(&*old(oracle), &*old(balances), who) {
                Some(e) => res == Err::<(), DispatchError>(e) && *final(oracle) == *old(oracle)
                    && *final(balances) == *old(balances),
                None => res is Ok && oracle_requested(
                    &*old(oracle),
                    &*final(oracle),
                    &*old(balances),
                    &*final(balances),
                    now,
                    self.cfg().pallet_index,
                    who,
                    g,
                    r,
                ),
            },
    {
        let request = AccessCheckRequest { requester: who, account: who, guild_name: g, role_name: r };
        let fee = oracle.config().minimum_fee;
        oracle.initiate_request(balances, now, Origin::Signed(who), self.config.pallet_index, request.encode(), fee)
    }

    /// Gives role `rid` to `who`.
    fn assign(&mut self, rid: RoleId, who: AccountId, g: GuildName, r: RoleName)
        requires
            old(self).wf(),
        ensures
            final(self).wf(),
            final(self).cfg() == old(self).cfg(),
            final(self).view() == old(self).view().assigned(rid, who, g, r),
    {
        self.members.insert((rid, who), true);
        self.events.push(Event::RoleAssigned(who, g, r));
        proof {
            assert(self.view().members =~= old(self).view().members.insert((rid, who)));
        }
    }

    /// Takes role `rid` from `who`.
    fn strip(&mut self, rid: RoleId, who: AccountId, g: GuildName, r: RoleName)
        requires
            old(self).wf(),
        ensures
            final(self).wf(),
            final(self).cfg() == old(self).cfg(),
            final(self).view() == old(self).view().stripped(rid, who, g, r),
    {
        self.members.remove(&(rid, who));
        self.events.push(Event::RoleStripped(who, g, r));
        proof {
            assert(self.view().members =~= old(self).view().members.remove((rid, who)));
        }
    }

    /// The effect of a successful evaluation of the access of `who` to role
    /// `rid`: the role is given, or the oracle is asked.
    pub open spec fn evaluated(
        before: GuildState,
        after: GuildState,
        oracle_before: &oracle::Pallet,
        oracle_after: &oracle::Pallet,
        balances_before: &Balances,
        balances_after: &Balances,
        now: BlockNumber,
        pallet_index: u32,
        who: AccountId,
        filter_access: bool,
        logic: Logic,
        requirements: bool,
        g: GuildName,
        r: RoleName,
        rid: RoleId,
    ) -> bool {
        match access_outcome(filter_access, logic, requirements) {
            Access::Granted => after == before.assigned(rid, who, g, r) && *oracle_after
                == *oracle_before && *balances_after == *balances_before,
            Access::Oracle => after == before && oracle_requested(
                oracle_before,
                oracle_after,
                balances_before,
                balances_after,
                now,
                pallet_index,
                who,
                g,
                r,
            ),
            Access::Denied => false,
        }
    }

    /// Grants the role, refuses it, or asks the oracle, as
    /// `access_outcome` decides.
    fn evaluate_access(
        &mut self,
        oracle: &mut oracle::Pallet,
        balances: &mut Balances,
        now: BlockNumber,
        who: AccountId,
        filter_access: bool,
        logic: Logic,
        requirements: bool,
        g: GuildName,
        r: RoleName,
        rid: RoleId,
    ) -> (res: Result<(), DispatchError>)
        requires
            old(self).wf(),
            old(oracle).wf(),
            old(balances).wf(),
        ensures
            final(self).wf(),
            final(oracle).wf(),
            final(balances).wf(),
            final(self).cfg() == old(self).cfg(),
            final(oracle).cfg() == old(oracle).cfg(),
            match evaluate_error(&*old(oracle), &*old(balances), who, filter_access, logic, requirements) {
                Some(e) => res == Err::<(), DispatchError>(e) && *final(self) == *old(self)
                    && *final(oracle) == *old(oracle) && *final(balances) == *old(balances),
                None => res is Ok && Self::evaluated(
                    old(self).view(),
                    final(self).view(),
                    &*old(oracle),
                    &*final(oracle),
                    &*old(balances),
                    &*final(balances),
                    now,
                    old(self).cfg().pallet_index,
                    who,
                    filter_access,
                    logic,
                    requirements,
                    g,
                    r,
                    rid,
                ),
            },
    {
        let and = match logic {
            Logic::And => true,
            Logic::Or => false,
        };
        if requirements && filter_access == and {
            self.dispatch_oracle_request(oracle, balances, now, who, g, r)
        } else if filter_access {
            self.assign(rid, who, g, r);
            Ok(())
        } else {
            Err(DispatchError::Guild(GuildError::AccessDenied))
        }
    }

    // ------------------------------------------------------------- joining

    /// Why `join_free_role` is refused, if it is.
    pub open spec fn join_free_role_error(
        &self,
        identity: &identity::Pallet,
        origin: Origin,
        g: GuildName,
        r: RoleName,
    ) -> Option<DispatchError> {
        match signer_of(origin) {
            None => Some(DispatchError::BadOrigin),
            Some(signer) => match self.checked_role_error(identity, signer, g, r) {
                Some(e) => Some(e),
                None => {
                    let role = self.view().roles[self.view().role_key(g, r)];
                    if role.filter is Some || role.requirements is Some {
                        Some(DispatchError::Guild(GuildError::InvalidJoinRequest))
                    } else {
                        None
                    }
                },
            },
        }
    }

    /// The registered signer joins a role that has neither a filter nor
    /// requirements.
    pub fn join_free_role(
        &mut self,
        identity: &identity::Pallet,
        origin: Origin,
        guild_name: GuildName,
        role_name: RoleName,
    ) -> (r: Result<(), DispatchError>)
        requires
            old(self).wf(),
            identity.wf(),
        ensures
            final(self).wf(),
            final(self).cfg() == old(self).cfg(),
            match old(self).join_free_role_error(identity, origin, guild_name, role_name) {
                Some(e) => r == Err::<(), DispatchError>(e) && *final(self) == *old(self),
                None => r is Ok && final(self).view() == old(self).view().assigned(
                    old(self).view().role_key(guild_name, role_name),
                    signer_of(origin)->0,
                    guild_name,
                    role_name,
                ),
            },
    {
        let signer = ensure_signed(origin)?;
        let (role_id, filter, requirements) = self.checked_role(identity, signer, guild_name, role_name)?;
        if filter.is_some() || requirements {
            return Err(DispatchError::Guild(GuildError::InvalidJoinRequest));
        }
        self.assign(role_id, signer, guild_name, role_name);
        Ok(())
    }

    /// Why `join_child_role` is refused, if it is.
    pub open spec fn join_child_role_error(
        &self,
        identity: &identity::Pallet,
        oracle: &oracle::Pallet,
        balances: &Balances,
        origin: Origin,
        g: GuildName,
        r: RoleName,
    ) -> Option<DispatchError> {
        match signer_of(origin) {
            None => Some(DispatchError::BadOrigin),
            Some(signer) => match self.checked_role_error(identity, signer, g, r) {
                Some(e) => Some(e),
                None => {
                    let role = self.view().roles[self.view().role_key(g, r)];
                    match role.filter {
                        Some(Filter::Guild(parent, logic)) => evaluate_error(
                            oracle,
                            balances,
                            signer,
                            parent_access(self.view(), signer, parent),
                            logic,
                            role.requirements is Some,
                        ),
                        _ => Some(DispatchError::Guild(GuildError::InvalidJoinRequest)),
                    }
                },
            },
        }
    }

    /// The registered signer joins a role gated by a guild filter: the role
    /// is given, refused, or left to the oracle, as the filter, its logic and
    /// the requirements decide.
    pub fn join_child_role(
        &mut self,
        identity: &identity::Pallet,
        oracle: &mut oracle::Pallet,
        balances: &mut Balances,
        now: BlockNumber,
        origin: Origin,
        guild_name: GuildName,
        role_name: RoleName,
    ) -> (r: Result<(), DispatchError>)
        requires
            old(self).wf(),
            identity.wf(),
            old(oracle).wf(),
            old(balances).wf(),
        ensures
            final(self).wf(),
            final(oracle).wf(),
            final(balances).wf(),
            final(self).cfg() == old(self).cfg(),
            final(oracle).cfg() == old(oracle).cfg(),
            match old(self).join_child_role_error(
                identity,
                &*old(oracle),
                &*old(balances),
                origin,
                guild_name,
                role_name,
            ) {
                Some(e) => r == Err::<(), DispatchError>(e) && *final(self) == *old(self)
                    && *final(oracle) == *old(oracle) && *final(balances) == *old(balances),
                None => {
                    let signer = signer_of(origin)->0;
                    let rid = old(self).view().role_key(guild_name, role_name);
                    let role = old(self).view().roles[rid];
                    &&& r is Ok
                    &&& role.filter matches Some(Filter::Guild(parent, logic))
                    &&& Self::evaluated(
                        old(self).view(),
                        final(self).view(),
                        &*old(oracle),
                        &*final(oracle),
                        &*old(balances),
                        &*final(balances),
                        now,
                        old(self).cfg().pallet_index,
                        signer,
                        parent_access(old(self).view(), signer, parent),
                        logic,
                        role.requirements is Some,
                        guild_name,
                        role_name,
                        rid,
                    )
                },
            },
    {
        let signer = ensure_signed(origin)?;
        let (role_id, filter, requirements) = self.checked_role(identity, signer, guild_name, role_name)?;
        match filter {
            Some(Filter::Guild(parent, logic)) => {
                let filter_access = self.check_parent_role(signer, parent);
                self.evaluate_access(
                    oracle,
                    balances,
                    now,
                    signer,
                    filter_access,
                    logic,
                    requirements,
                    guild_name,
                    role_name,
                    role_id,
                )
            },
            _ => Err(DispatchError::Guild(GuildError::InvalidJoinRequest)),
        }
    }

    /// Why `join_role_with_allowlist` is refused, if it is.
    pub open spec fn join_role_with_allowlist_error(
        &self,
        identity: &identity::Pallet,
        oracle: &oracle::Pallet,
        balances: &Balances,
        origin: Origin,
        g: GuildName,
        r: RoleName,
        proof_valid: bool,
    ) -> Option<DispatchError> {
        match signer_of(origin) {
            None => Some(DispatchError::BadOrigin),
            Some(signer) => match self.checked_role_error(identity, signer, g, r) {
                Some(e) => Some(e),
                None => {
                    let role = self.view().roles[self.view().role_key(g, r)];
                    match role.filter {
                        Some(Filter::Allowlist(_, logic, _)) => evaluate_error(
                            oracle,
                            balances,
                            signer,
                            proof_valid,
                            logic,
                            role.requirements is Some,
                        ),
                        _ => Some(DispatchError::Guild(GuildError::InvalidJoinRequest)),
                    }
                },
            },
        }
    }

    /// The registered signer joins a role gated by an allowlist.
    /// `proof_valid` tells whether the signer's Merkle proof leads from the
    /// encoding of the signer's account to the role's allowlist root (see
    /// `merkle::Proof::verify`); the role is then given, refused, or left to
    /// the oracle, as the proof, the filter's logic and the requirements
    /// decide. Only the primary account can join this way. The proof is
    /// checked by the caller (`app/` does it with `binary_merkle_tree`);
    /// nothing here ties `proof_valid` to the allowlist or to the signer's
    /// encoding.
    pub fn join_role_with_allowlist(
        &mut self,
        identity: &identity::Pallet,
        oracle: &mut oracle::Pallet,
        balances: &mut Balances,
        now: BlockNumber,
        origin: Origin,
        guild_name: GuildName,
        role_name: RoleName,
        proof_valid: bool,
    ) -> (r: Result<(), DispatchError>)
        requires
            old(self).wf(),
            identity.wf(),
            old(oracle).wf(),
            old(balances).wf(),
        ensures
            final(self).wf(),
            final(oracle).wf(),
            final(balances).wf(),
            final(self).cfg() == old(self).cfg(),
            final(oracle).cfg() == old(oracle).cfg(),
            match old(self).join_role_with_allowlist_error(
                identity,
                &*old(oracle),
                &*old(balances),
                origin,
                guild_name,
                role_name,
                proof_valid,
            ) {
                Some(e) => r == Err::<(), DispatchError>(e) && *final(self) == *old(self)
                    && *final(oracle) == *old(oracle) && *final(balances) == *old(balances),
                None => {
                    let signer = signer_of(origin)->0;
                    let rid = old(self).view().role_key(guild_name, role_name);
                    let role = old(self).view().roles[rid];
                    &&& r is Ok
                    &&& role.filter matches Some(Filter::Allowlist(root, logic, n))
                    &&& Self::evaluated(
                        old(self).view(),
                        final(self).view(),
                        &*old(oracle),
                        &*final(oracle),
                        &*old(balances),
                        &*final(balances),
                        now,
                        old(self).cfg().pallet_index,
                        signer,
                        proof_valid,
                        logic,
                        role.requirements is Some,
                        guild_name,
                        role_name,
                        rid,
                    )
                },
            },
    {
        let signer = ensure_signed(origin)?;
        let (role_id, filter, requirements) = self.checked_role(identity, signer, guild_name, role_name)?;
        match filter {
            Some(Filter::Allowlist(_, logic, _)) => self.evaluate_access(
                oracle,
                balances,
                now,
                signer,
                proof_valid,
                logic,
                requirements,
                guild_name,
                role_name,
                role_id,
            ),
            _ => Err(DispatchError::Guild(GuildError::InvalidJoinRequest)),
        }
    }

    /// Why `join_unfiltered_role` is refused, if it is.
    pub open spec fn join_unfiltered_role_error(
        &self,
        identity: &identity::Pallet,
        oracle: &oracle::Pallet,
        balances: &Balances,
        origin: Origin,
        g: GuildName,
        r: RoleName,
    ) -> Option<DispatchError> {
        match signer_of(origin) {
            None => Some(DispatchError::BadOrigin),
            Some(signer) => match self.checked_role_error(identity, signer, g, r) {
                Some(e) => Some(e),
                None => {
                    let role = self.view().roles[self.view().role_key(g, r)];
                    if role.filter is None && role.requirements is Some {
                        oracle_request_error(oracle, balances, signer)
                    } else {
                        Some(DispatchError::Guild(GuildError::InvalidJoinRequest))
                    }
                },
            },
        }
    }

    /// The registered signer asks to join a role gated by requirements
    /// alone: the oracle is asked to check them.
    pub fn join_unfiltered_role(
        &mut self,
        identity: &identity::Pallet,
        oracle: &mut oracle::Pallet,
        balances: &mut Balances,
        now: BlockNumber,
        origin: Origin,
        guild_name: GuildName,
        role_name: RoleName,
    ) -> (r: Result<(), DispatchError>)
        requires
            old(self).wf(),
            identity.wf(),
            old(oracle).wf(),
            old(balances).wf(),
        ensures
            final(self).wf(),
            final(oracle).wf(),
            final(balances).wf(),
            final(self).cfg() == old(self).cfg(),
            final(oracle).cfg() == old(oracle).cfg(),
            *final(self) == *old(self),
            match old(self).join_unfiltered_role_error(
                identity,
                &*old(oracle),
                &*old(balances),
                origin,
                guild_name,
                role_name,
            ) {
                Some(e) => r == Err::<(), DispatchError>(e) && *final(oracle) == *old(oracle)
                    && *final(balances) == *old(balances),
                None => r is Ok && oracle_requested(
                    &*old(oracle),
                    &*final(oracle),
                    &*old(balances),
                    &*final(balances),
                    now,
                    old(self).cfg().pallet_index,
                    signer_of(origin)->0,
                    guild_name,
                    role_name,
                ),
            },
    {
        let signer = ensure_signed(origin)?;
        let (_, filter, requirements) = self.checked_role(identity, signer, guild_name, role_name)?;
        if filter.is_none() && requirements {
            self.dispatch_oracle_request(oracle, balances, now, signer, guild_name, role_name)
        } else {
            Err(DispatchError::Guild(GuildError::InvalidJoinRequest))
        }
    }

    /// Why `leave` is refused, if it is.
    pub open spec fn leave_error(
        &self,
        identity: &identity::Pallet,
        origin: Origin,
        g: GuildName,
        r: RoleName,
    ) -> Option<DispatchError> {
        match signer_of(origin) {
            None => Some(DispatchError::BadOrigin),
            Some(signer) => self.checked_role_error(identity, signer, g, r),
        }
    }

    /// The registered signer gives up a role (whether it held it or not).
    pub fn leave(
        &mut self,
        identity: &identity::Pallet,
        origin: Origin,
        guild_name: GuildName,
        role_name: RoleName,
    ) -> (r: Result<(), DispatchError>)
        requires
            old(self).wf(),
            identity.wf(),
        ensures
            final(self).wf(),
            final(self).cfg() == old(self).cfg(),
            match old(self).leave_error(identity, origin, guild_name, role_name) {
                Some(e) => r == Err::<(), DispatchError>(e) && *final(self) == *old(self),
                None => r is Ok && final(self).view() == old(self).view().stripped(
                    old(self).view().role_key(guild_name, role_name),
                    signer_of(origin)->0,
                    guild_name,
                    role_name,
                ),
            },
    {
        let signer = ensure_signed(origin)?;
        let (role_id, _, _) = self.checked_role(identity, signer, guild_name, role_name)?;
        self.strip(role_id, signer, guild_name, role_name);
        Ok(())
    }

    /// Why `request_access_check` is refused, if it is.
    pub open spec fn request_access_check_error(
        &self,
        identity: &identity::Pallet,
        oracle: &oracle::Pallet,
        balances: &Balances,
        origin: Origin,
        account: AccountId,
        g: GuildName,
        r: RoleName,
    ) -> Option<DispatchError> {
        let s = self.view();
        match signer_of(origin) {
            None => Some(DispatchError::BadOrigin),
            Some(signer) => if account == signer {
                Some(DispatchError::BadOrigin)
            } else if !s.guild_ids.contains_key(g) {
                Some(DispatchError::Guild(GuildError::GuildDoesNotExist))
            } else if !s.role_ids.contains_key((s.guild_ids[g], r)) {
                Some(DispatchError::Guild(GuildError::RoleDoesNotExist))
            } else if !identity.view().addresses.contains_key(account) {
                if s.members.contains((s.role_key(g, r), account)) {
                    None
                } else {
                    Some(DispatchError::Guild(GuildError::UserNotJoined))
                }
            } else if !s.roles.contains_key(s.role_key(g, r)) {
                Some(DispatchError::Guild(GuildError::RoleDoesNotExist))
            } else if or_filter(s.roles[s.role_key(g, r)].filter) {
                Some(DispatchError::Guild(GuildError::InvalidOracleRequest))
            } else if s.roles[s.role_key(g, r)].requirements is Some {
                oracle_request_error(oracle, balances, account)
            } else {
                Some(DispatchError::Guild(GuildError::InvalidOracleRequest))
            },
        }
    }

    /// The signer asks that `account` be checked again. An account that is
    /// no longer registered loses the role at once; otherwise the oracle is
    /// asked, with the fee reserved from `account`. There is nothing to ask
    /// when a filter combined by `Or` already decides, or when the role has
    /// no requirements. Checking oneself is refused: use `leave`.
    pub fn request_access_check(
        &mut self,
        identity: &identity::Pallet,
        oracle: &mut oracle::Pallet,
        balances: &mut Balances,
        now: BlockNumber,
        origin: Origin,
        account: AccountId,
        guild_name: GuildName,
        role_name: RoleName,
    ) -> (r: Result<(), DispatchError>)
        requires
            old(self).wf(),
            identity.wf(),
            old(oracle).wf(),
            old(balances).wf(),
        ensures
            final(self).wf(),
            final(oracle).wf(),
            final(balances).wf(),
            final(self).cfg() == old(self).cfg(),
            final(oracle).cfg() == old(oracle).cfg(),
            match old(self).request_access_check_error(
                identity,
                &*old(oracle),
                &*old(balances),
                origin,
                account,
                guild_name,
                role_name,
            ) {
                Some(e) => r == Err::<(), DispatchError>(e) && *final(self) == *old(self)
                    && *final(oracle) == *old(oracle) && *final(balances) == *old(balances),
                None => {
                    &&& r is Ok
                    &&& if !identity.view().addresses.contains_key(account) {
                        &&& final(self).view() == old(self).view().stripped(
                            old(self).view().role_key(guild_name, role_name),
                            account,
                            guild_name,
                            role_name,
                        )
                        &&& *final(oracle) == *old(oracle)
                        &&& *final(balances) == *old(balances)
                    } else {
                        &&& *final(self) == *old(self)
                        &&& oracle_requested(
                            &*old(oracle),
                            &*final(oracle),
                            &*old(balances),
                            &*final(balances),
                            now,
                            old(self).cfg().pallet_index,
                            account,
                            guild_name,
                            role_name,
                        )
                    }
                },
            },
    {
        let signer = ensure_signed(origin)?;
        if account == signer {
            return Err(DispatchError::BadOrigin);
        }
        let guild_id = match self.guild_ids.get(&guild_name) {
            Some(id) => *id,
            None => {
                return Err(DispatchError::Guild(GuildError::GuildDoesNotExist));
            },
        };
        let role_id = match self.role_ids.get(&(guild_id, role_name)) {
            Some(id) => *id,
            None => {
                return Err(DispatchError::Guild(GuildError::RoleDoesNotExist));
            },
        };
        if identity.addresses(account).is_none() {
            if !self.members.contains_key(&(role_id, account)) {
                return Err(DispatchError::Guild(GuildError::UserNotJoined));
            }
            self.strip(role_id, account, guild_name, role_name);
            return Ok(());
        }
        let (filter, requirements) = match self.roles.get(&role_id) {
            Some(role) => (role.filter, role.requirements.is_some()),
            None => {
                return Err(DispatchError::Guild(GuildError::RoleDoesNotExist));
            },
        };
        let or_logic = match filter {
            Some(Filter::Guild(_, Logic::Or)) => true,
            Some(Filter::Allowlist(_, Logic::Or, _)) => true,
            _ => false,
        };
        if or_logic {
            return Err(DispatchError::Guild(GuildError::InvalidOracleRequest));
        }
        if requirements {
            self.dispatch_oracle_request(oracle, balances, now, account, guild_name, role_name)
        } else {
            Err(DispatchError::Guild(GuildError::InvalidOracleRequest))
        }
    }

    /// Why `sudo_remove` is refused, if it is.
    pub open spec fn sudo_remove_error(
        &self,
        identity: &identity::Pallet,
        origin: Origin,
        account: AccountId,
        g: GuildName,
        r: RoleName,
    ) -> Option<DispatchError> {
        if !(origin is Root) {
            Some(DispatchError::BadOrigin)
        } else {
            self.checked_role_error(identity, account, g, r)
        }
    }

    /// The root takes a role from a registered account.
    pub fn sudo_remove(
        &mut self,
        identity: &identity::Pallet,
        origin: Origin,
        account: AccountId,
        guild_name: GuildName,
        role_name: RoleName,
    ) -> (r: Result<(), DispatchError>)
        requires
            old(self).wf(),
            identity.wf(),
        ensures
            final(self).wf(),
            final(self).cfg() == old(self).cfg(),
            match old(self).sudo_remove_error(identity, origin, account, guild_name, role_name) {
                Some(e) => r == Err::<(), DispatchError>(e) && *final(self) == *old(self),
                None => r is Ok && final(self).view() == old(self).view().stripped(
                    old(self).view().role_key(guild_name, role_name),
                    account,
                    guild_name,
                    role_name,
                ),
            },
    {
        ensure_root(origin)?;
        let (role_id, _, _) = self.checked_role(identity, account, guild_name, role_name)?;
        self.strip(role_id, account, guild_name, role_name);
        Ok(())
    }

    // ------------------------------------------------------- oracle answers

    /// Why `callback` is refused, if it is.
    pub open spec fn callback_error(
        &self,
        oracle: &oracle::Pallet,
        balances: &Balances,
        origin: Origin,
        request_id: RequestIdentifier,
        result: bool,
    ) -> Option<DispatchError> {
        let s = self.view();
        match signer_of(origin) {
            None => Some(DispatchError::BadOrigin),
            Some(signer) => if !oracle.view().requests.contains_key(request_id) {
                Some(DispatchError::Guild(GuildError::InvalidOracleAnswer))
            } else {
                let request = oracle.view().requests[request_id];
                if request.pallet_index != self.cfg().pallet_index {
                    Some(DispatchError::Guild(GuildError::InvalidOracleAnswer))
                } else {
                    match AccessCheckRequest::spec_decode(request.data) {
                        None => Some(DispatchError::Guild(GuildError::InvalidOracleAnswer)),
                        Some(a) => if oracle.callback_error(
                            balances,
                            Origin::Root,
                            signer,
                            request_id,
                        ) is Some {
                            oracle.callback_error(balances, Origin::Root, signer, request_id)
                        } else if !s.guild_ids.contains_key(a.guild_name) {
                            Some(DispatchError::Guild(GuildError::GuildDoesNotExist))
                        } else if !s.role_ids.contains_key((s.guild_ids[a.guild_name], a.role_name)) {
                            Some(DispatchError::Guild(GuildError::RoleDoesNotExist))
                        } else if !result && !s.members.contains(
                            (s.role_key(a.guild_name, a.role_name), a.account),
                        ) {
                            Some(DispatchError::Guild(GuildError::AccessDenied))
                        } else {
                            None
                        },
                    }
                }
            },
        }
    }

    /// The state once the oracle answered `result` to the access check `a`:
    /// a passing account that lacks the role gets it, a failing account that
    /// holds it loses it, and nothing else changes.
    pub open spec fn answered(s: GuildState, a: AccessCheckRequest, result: bool) -> GuildState {
        let rid = s.role_key(a.guild_name, a.role_name);
        let member = s.members.contains((rid, a.account));
        if result && !member {
            s.assigned(rid, a.account, a.guild_name, a.role_name)
        } else if !result && member {
            s.stripped(rid, a.account, a.guild_name, a.role_name)
        } else {
            s
        }
    }

    /// The operator answers an access check: the oracle pays the operator
    /// and drops the request, and the role is given or taken as the answer
    /// says.
    pub fn callback(
        &mut self,
        oracle: &mut oracle::Pallet,
        balances: &mut Balances,
        origin: Origin,
        request_id: RequestIdentifier,
        result: bool,
    ) -> (r: Result<(), DispatchError>)
        requires
            old(self).wf(),
            old(oracle).wf(),
            old(balances).wf(),
        ensures
            final(self).wf(),
            final(oracle).wf(),
            final(balances).wf(),
            final(self).cfg() == old(self).cfg(),
            final(oracle).cfg() == old(oracle).cfg(),
            match old(self).callback_error(&*old(oracle), &*old(balances), origin, request_id, result) {
                Some(e) => r == Err::<(), DispatchError>(e) && *final(self) == *old(self)
                    && *final(oracle) == *old(oracle) && *final(balances) == *old(balances),
                None => {
                    let request = old(oracle).view().requests[request_id];
                    let a = AccessCheckRequest::spec_decode(request.data)->0;
                    &&& r is Ok
                    &&& final(oracle).view() == old(oracle).after_callback(
                        signer_of(origin)->0,
                        request_id,
                    )
                    &&& final(balances).view() == oracle::Pallet::paid(old(balances).view(), request)
                    &&& final(self).view() == Self::answered(old(self).view(), a, result)
                },
            },
    {
        let signer = ensure_signed(origin)?;
        let request = match oracle.request(request_id) {
            Some(request) => request,
            None => {
                return Err(DispatchError::Guild(GuildError::InvalidOracleAnswer));
            },
        };
        if request.pallet_index != self.config.pallet_index {
            return Err(DispatchError::Guild(GuildError::InvalidOracleAnswer));
        }
        let access = match AccessCheckRequest::decode(request.data.as_slice()) {
            Some(access) => access,
            None => {
                return Err(DispatchError::Guild(GuildError::InvalidOracleAnswer));
            },
        };
        oracle.check_callback(balances, Origin::Root, signer, request_id)?;
        let guild_id = match self.guild_ids.get(&access.guild_name) {
            Some(id) => *id,
            None => {
                return Err(DispatchError::Guild(GuildError::GuildDoesNotExist));
            },
        };
        let role_id = match self.role_ids.get(&(guild_id, access.role_name)) {
            Some(id) => *id,
            None => {
                return Err(DispatchError::Guild(GuildError::RoleDoesNotExist));
            },
        };
        let member = self.members.contains_key(&(role_id, access.account));
        if !result && !member {
            return Err(DispatchError::Guild(GuildError::AccessDenied));
        }
        oracle.callback(balances, Origin::Root, signer, request_id)?;
        if result && !member {
            self.assign(role_id, access.account, access.guild_name, access.role_name);
        } else if !result && member {
            self.strip(role_id, access.account, access.guild_name, access.role_name);
        }
        Ok(())
    }

    // ------------------------------------------------------------- getters

    /// The number of identifiers drawn so far (modulo 2^64).
    pub fn nonce(&self) -> (n: u64)
        ensures
            n == self.view().nonce,
    {
        self.nonce
    }

    /// The id of guild `guild_name`, if it exists.
    pub fn guild_id(&self, guild_name: GuildName) -> (r: Option<GuildId>)
        requires
            self.wf(),
        ensures
            match r {
                Some(id) => self.view().guild_ids.contains_key(guild_name) && self.view().guild_ids[guild_name] == id,
                None => !self.view().guild_ids.contains_key(guild_name),
            },
    {
        match self.guild_ids.get(&guild_name) {
            Some(id) => Some(*id),
            None => None,
        }
    }

    /// The id of role `role_name` of the guild with id `guild_id`, if it
    /// exists.
    pub fn role_id(&self, guild_id: GuildId, role_name: RoleName) -> (r: Option<RoleId>)
        requires
            self.wf(),
        ensures
            match r {
                Some(id) => self.view().role_ids.contains_key((guild_id, role_name))
                    && self.view().role_ids[(guild_id, role_name)] == id,
                None => !self.view().role_ids.contains_key((guild_id, role_name)),
            },
    {
        match self.role_ids.get(&(guild_id, role_name)) {
            Some(id) => Some(*id),
            None => None,
        }
    }

    /// The guild with id `guild_id`, if any.
    pub fn guild(&self, guild_id: GuildId) -> (r: Option<&Guild<AccountId>>)
        requires
            self.wf(),
        ensures
            match r {
                Some(g) => self.view().guilds.contains_key(guild_id) && self.view().guilds[guild_id] == g.view(),
                None => !self.view().guilds.contains_key(guild_id),
            },
    {
        self.guilds.get(&guild_id)
    }

    /// The role with id `role_id`, if any.
    pub fn role(&self, role_id: RoleId) -> (r: Option<&Role>)
        requires
            self.wf(),
        ensures
            match r {
                Some(role) => self.view().roles.contains_key(role_id) && self.view().roles[role_id] == role.view(),
                None => !self.view().roles.contains_key(role_id),
            },
    {
        self.roles.get(&role_id)
    }

    /// `Some(true)` when `account` holds role `role_id`, else `None`.
    pub fn member(&self, role_id: RoleId, account: AccountId) -> (r: Option<bool>)
        requires
            self.wf(),
        ensures
            r == (if self.view().members.contains((role_id, account)) {
                Some(true)
            } else {
                None::<bool>
            }),
    {
        match self.members.get(&(role_id, account)) {
            Some(b) => Some(*b),
            None => None,
        }
    }

    /// The writes to off-chain storage, oldest first.
    pub fn offchain_index(&self) -> (v: &Vec<(Vec<u8>, Vec<u8>)>)
        ensures
            v@.map_values(|e: (Vec<u8>, Vec<u8>)| (e.0@, e.1@)) == self.view().offchain,
    {
        &self.offchain
    }

    /// The events deposited so far, oldest first.
    pub fn events(&self) -> (v: &Vec<Event>)
        ensures
            v@ == self.view().events,
    {
        &self.events
    }

    /// The last event deposited, if any.
    pub fn last_event(&self) -> (e: Option<&Event>)
        ensures
            self.view().events.len() == 0 ==> e is None,
            self.view().events.len() > 0 ==> e == Some(&self.view().events.last()),
    {
        if self.events.len() == 0 {
            None
        } else {
            Some(&self.events[self.events.len() - 1])
        }
    }

    // ------------------------------------------------------ guilds and roles

    /// Why `create_guild` is refused, if it is.
    pub open spec fn create_guild_error(&self, origin: Origin, g: GuildName, metadata: Seq<u8>) -> Option<
        DispatchError,
    > {
        match signer_of(origin) {
            None => Some(DispatchError::BadOrigin),
            Some(_) => if self.view().guild_ids.contains_key(g) {
                Some(DispatchError::Guild(GuildError::GuildAlreadyExists))
            } else if metadata.len() > self.cfg().max_serialized_len {
                Some(DispatchError::Guild(GuildError::MaxSerializedLenExceeded))
            } else {
                None
            },
        }
    }

    /// The signer creates guild `guild_name`, owned by it and without roles,
    /// under an id drawn from `rng`.
    pub fn create_guild<R: Randomness>(
        &mut self,
        rng: &R,
        origin: Origin,
        guild_name: GuildName,
        metadata: Vec<u8>,
    ) -> (r: Result<(), DispatchError>)
        requires
            old(self).wf(),
        ensures
            final(self).wf(),
            final(self).cfg() == old(self).cfg(),
            match old(self).create_guild_error(origin, guild_name, metadata@) {
                Some(e) => r == Err::<(), DispatchError>(e) && *final(self) == *old(self),
                None => {
                    let signer = signer_of(origin)->0;
                    let old_s = old(self).view();
                    let id = final(self).view().guild_ids[guild_name];
                    &&& r is Ok
                    &&& final(self).view() == (GuildState {
                        nonce: next_nonce(old_s.nonce),
                        guild_ids: old_s.guild_ids.insert(guild_name, id),
                        guilds: old_s.guilds.insert(
                            id,
                            GuildView {
                                name: guild_name,
                                owner: signer,
                                metadata: metadata@,
                                roles: Seq::empty(),
                            },
                        ),
                        events: old_s.events.push(Event::GuildCreated(signer, guild_name)),
                        ..old_s
                    })
                },
            },
    {
        let signer = ensure_signed(origin)?;
        if self.guild_ids.contains_key(&guild_name) {
            return Err(DispatchError::Guild(GuildError::GuildAlreadyExists));
        }
        if metadata.len() > self.config.max_serialized_len as usize {
            return Err(DispatchError::Guild(GuildError::MaxSerializedLenExceeded));
        }
        let guild_id = self.get_random_uuid(rng);
        self.guild_ids.insert(guild_name, guild_id);
        let guild = Guild { name: guild_name, owner: signer, metadata, roles: Vec::new() };
        let ghost gv = guild.view();
        self.guilds.insert(guild_id, guild);
        self.events.push(Event::GuildCreated(signer, guild_name));
        proof {
            assert(gv.roles =~= Seq::<RoleName>::empty());
            assert(self.view().guilds =~= old(self).view().guilds.insert(guild_id, gv));
        }
        Ok(())
    }

    /// Why creating role `r` of guild `g` for `signer` is refused, if it is.
    pub open spec fn create_role_error(
        &self,
        signer: AccountId,
        g: GuildName,
        r: RoleName,
        requirements: Option<(Seq<Seq<u8>>, Seq<u8>)>,
    ) -> Option<DispatchError> {
        let s = self.view();
        let c = self.cfg();
        if !s.guild_ids.contains_key(g) {
            Some(DispatchError::Guild(GuildError::GuildDoesNotExist))
        } else if s.role_ids.contains_key((s.guild_ids[g], r)) {
            Some(DispatchError::Guild(GuildError::RoleAlreadyExists))
        } else if requirements is Some && req_list(requirements).len() > c.max_reqs_per_role {
            Some(DispatchError::Guild(GuildError::MaxReqsPerRoleExceeded))
        } else if requirements is Some && req_logic(requirements).len() > c.max_serialized_len {
            Some(DispatchError::Guild(GuildError::MaxSerializedLenExceeded))
        } else if requirements is Some && exists|i: int|
            0 <= i < req_list(requirements).len() && #[trigger] req_list(requirements)[i].len()
                > c.max_serialized_len {
            Some(DispatchError::Guild(GuildError::MaxSerializedLenExceeded))
        } else if !s.guilds.contains_key(s.guild_ids[g]) {
            Some(DispatchError::Guild(GuildError::GuildDoesNotExist))
        } else if s.guilds[s.guild_ids[g]].owner != signer {
            Some(DispatchError::BadOrigin)
        } else if s.guilds[s.guild_ids[g]].roles.len() == c.max_roles_per_guild {
            Some(DispatchError::Guild(GuildError::MaxRolesPerGuildExceeded))
        } else {
            None
        }
    }

    /// Whether every requirement fits in the serialized length.
    fn requirements_fit(&self, reqs: &Vec<Vec<u8>>) -> (b: bool)
        ensures
            b == forall|i: int|
                0 <= i < reqs@.len() ==> #[trigger] reqs@[i]@.len() <= self.cfg().max_serialized_len,
    {
        let mut i: usize = 0;
        while i < reqs.len()
            invariant
                i <= reqs@.len(),
                forall|j: int| 0 <= j < i ==> #[trigger] reqs@[j]@.len() <= self.cfg().max_serialized_len,
            decreases reqs@.len() - i,
        {
            if reqs[i].len() > self.config.max_serialized_len as usize {
                return false;
            }
            i = i + 1;
        }
        true
    }

    /// Creates role `r` of guild `g` with the given rules, under an id drawn
    /// from `rng`, and returns the id.
    fn do_create_role<R: Randomness>(
        &mut self,
        rng: &R,
        signer: AccountId,
        g: GuildName,
        r: RoleName,
        filter: Option<Filter>,
        requirements: Option<SerializedRequirements>,
    ) -> (res: Result<RoleId, DispatchError>)
        requires
            old(self).wf(),
        ensures
            final(self).wf(),
            final(self).cfg() == old(self).cfg(),
            match old(self).create_role_error(signer, g, r, opt_requirements_view(requirements)) {
                Some(e) => res == Err::<RoleId, DispatchError>(e) && *final(self) == *old(self),
                None => {
                    &&& res is Ok
                    &&& final(self).view() == old(self).view().role_created(
                        signer,
                        g,
                        r,
                        filter,
                        opt_requirements_view(requirements),
                        res->Ok_0,
                    )
                },
            },
    {
        let guild_id = match self.guild_ids.get(&g) {
            Some(id) => *id,
            None => {
                return Err(DispatchError::Guild(GuildError::GuildDoesNotExist));
            },
        };
        if self.role_ids.contains_key(&(guild_id, r)) {
            return Err(DispatchError::Guild(GuildError::RoleAlreadyExists));
        }
        match &requirements {
            Some(req) => {
                if req.0.len() > self.config.max_reqs_per_role as usize {
                    return Err(DispatchError::Guild(GuildError::MaxReqsPerRoleExceeded));
                }
                if req.1.len() > self.config.max_serialized_len as usize {
                    return Err(DispatchError::Guild(GuildError::MaxSerializedLenExceeded));
                }
                if !self.requirements_fit(&req.0) {
                    proof {
                        let reqs = requirements_view(*req).0;
                        let i = choose|i: int|
                            0 <= i < req.0@.len() && !(#[trigger] req.0@[i]@.len()
                                <= self.cfg().max_serialized_len);
                        assert(reqs[i].len() > self.cfg().max_serialized_len);
                    }
                    return Err(DispatchError::Guild(GuildError::MaxSerializedLenExceeded));
                }
                proof {
                    let reqs = requirements_view(*req).0;
                    assert forall|i: int| 0 <= i < reqs.len() implies !(#[trigger] reqs[i].len()
                        > self.cfg().max_serialized_len) by {
                        assert(reqs[i] == req.0@[i]@);
                    }
                }
            },
            None => {},
        }
        let mut guild = match self.guilds.get(&guild_id) {
            Some(guild) => {
                if guild.owner != signer {
                    return Err(DispatchError::BadOrigin);
                }
                if guild.roles.len() == self.config.max_roles_per_guild as usize {
                    return Err(DispatchError::Guild(GuildError::MaxRolesPerGuildExceeded));
                }
                match self.guilds.remove(&guild_id) {
                    Some(guild) => guild,
                    None => {
                        return Err(DispatchError::Guild(GuildError::GuildDoesNotExist));
                    },
                }
            },
            None => {
                return Err(DispatchError::Guild(GuildError::GuildDoesNotExist));
            },
        };
        let ghost before = guild.view();
        guild.roles.push(r);
        let ghost gv = guild.view();
        self.guilds.insert(guild_id, guild);
        let role_id = self.get_random_uuid(rng);
        self.role_ids.insert((guild_id, r), role_id);
        let role = Role { filter, requirements };
        let ghost rv = role.view();
        self.roles.insert(role_id, role);
        self.events.push(Event::RoleCreated(signer, g, r));
        proof {
            let old_s = old(self).view();
            assert(gv == GuildView { roles: old_s.guilds[guild_id].roles.push(r), ..old_s.guilds[guild_id] });
            assert(self.view().guilds =~= old_s.guilds.insert(guild_id, gv));
            assert(self.view().roles =~= old_s.roles.insert(role_id, rv));
        }
        Ok(role_id)
    }

    /// The signer creates role `role_name` of its guild `guild_name`, open
    /// to every registered account.
    pub fn create_free_role<R: Randomness>(
        &mut self,
        rng: &R,
        origin: Origin,
        guild_name: GuildName,
        role_name: RoleName,
    ) -> (r: Result<(), DispatchError>)
        requires
            old(self).wf(),
        ensures
            final(self).wf(),
            final(self).cfg() == old(self).cfg(),
            match signer_of(origin) {
                None => r == Err::<(), DispatchError>(DispatchError::BadOrigin) && *final(self)
                    == *old(self),
                Some(signer) => match old(self).create_role_error(signer, guild_name, role_name, None) {
                    Some(e) => r == Err::<(), DispatchError>(e) && *final(self) == *old(self),
                    None => r is Ok && final(self).view() == old(self).view().role_created(
                        signer,
                        guild_name,
                        role_name,
                        None,
                        None,
                        final(self).view().role_key(guild_name, role_name),
                    ),
                },
            },
    {
        let signer = ensure_signed(origin)?;
        self.do_create_role(rng, signer, guild_name, role_name, None, None)?;
        Ok(())
    }

    /// The signer creates role `role_name` of its guild `guild_name`, open to
    /// the accounts of `allowlist`, whose Merkle root over the accounts'
    /// encodings is `root`. The encoded allowlist is written to off-chain
    /// storage under the role's allowlist key. The root is computed by the
    /// caller (the Merkle tree needs a `hash_db::Hasher`, which this library
    /// cannot implement); nothing here checks that it is the root of
    /// `allowlist`.
    pub fn create_role_with_allowlist<R: Randomness>(
        &mut self,
        rng: &R,
        origin: Origin,
        guild_name: GuildName,
        role_name: RoleName,
        allowlist: Vec<AccountId>,
        root: crate::hash::Hash,
        filter_logic: Logic,
        requirements: Option<SerializedRequirements>,
    ) -> (r: Result<(), DispatchError>)
        requires
            old(self).wf(),
        ensures
            final(self).wf(),
            final(self).cfg() == old(self).cfg(),
            match signer_of(origin) {
                None => r == Err::<(), DispatchError>(DispatchError::BadOrigin) && *final(self)
                    == *old(self),
                Some(signer) => if allowlist@.len() == 0 || allowlist@.len()
                    > old(self).cfg().max_allowlist_len {
                    r == Err::<(), DispatchError>(
                        DispatchError::Guild(GuildError::InvalidAllowlistLen),
                    ) && *final(self) == *old(self)
                } else {
                    match old(self).create_role_error(
                        signer,
                        guild_name,
                        role_name,
                        opt_requirements_view(requirements),
                    ) {
                        Some(e) => r == Err::<(), DispatchError>(e) && *final(self) == *old(self),
                        None => {
                            let rid = final(self).view().role_key(guild_name, role_name);
                            let created = old(self).view().role_created(
                                signer,
                                guild_name,
                                role_name,
                                Some(Filter::Allowlist(root, filter_logic, allowlist@.len() as u32)),
                                opt_requirements_view(requirements),
                                rid,
                            );
                            let key = allowlist_prefix() + rid@;
                            &&& r is Ok
                            &&& final(self).view() == (GuildState {
                                offchain: created.offchain.push((key, scale_accounts(allowlist@))),
                                events: final(self).view().events,
                                ..created
                            })
                            &&& final(self).view().events.drop_last() == created.events
                            &&& final(self).view().events.len() == created.events.len() + 1
                            &&& final(self).view().events.last() is AllowlistWritten
                            &&& final(self).view().events.last()->AllowlistWritten_0@ == key
                        },
                    }
                },
            },
    {
        let signer = ensure_signed(origin)?;
        if allowlist.len() == 0 || allowlist.len() > self.config.max_allowlist_len as usize {
            return Err(DispatchError::Guild(GuildError::InvalidAllowlistLen));
        }
        let filter = Filter::Allowlist(root, filter_logic, allowlist.len() as u32);
        let role_id = self.do_create_role(rng, signer, guild_name, role_name, Some(filter), requirements)?;
        let ghost created = self.view();
        let offchain_key = offchain_allowlist_key(&role_id);
        let value = encode_accounts(allowlist.as_slice());
        let key = offchain_allowlist_key(&role_id);
        self.offchain.push((offchain_key, value));
        self.events.push(Event::AllowlistWritten(key));
        proof {
            assert(self.view().offchain =~= created.offchain.push((allowlist_prefix() + role_id@, scale_accounts(allowlist@))));
            assert(self.view().events.drop_last() =~= created.events);
        }
        Ok(())
    }

    /// The signer creates role `role_name` of its guild `guild_name`, gated
    /// by membership in the guild or role that `filter` names.
    pub fn create_child_role<R: Randomness>(
        &mut self,
        rng: &R,
        origin: Origin,
        guild_name: GuildName,
        role_name: RoleName,
        filter: GuildFilter,
        filter_logic: Logic,
        requirements: Option<SerializedRequirements>,
    ) -> (r: Result<(), DispatchError>)
        requires
            old(self).wf(),
        ensures
            final(self).wf(),
            final(self).cfg() == old(self).cfg(),
            match signer_of(origin) {
                None => r == Err::<(), DispatchError>(DispatchError::BadOrigin) && *final(self)
                    == *old(self),
                Some(signer) => if !old(self).view().guild_ids.contains_key(filter.name) {
                    r == Err::<(), DispatchError>(DispatchError::Guild(GuildError::GuildDoesNotExist))
                        && *final(self) == *old(self)
                } else if filter.role is Some && !old(self).view().role_ids.contains_key(
                    (old(self).view().guild_ids[filter.name], filter.role->0),
                ) {
                    r == Err::<(), DispatchError>(DispatchError::Guild(GuildError::RoleDoesNotExist))
                        && *final(self) == *old(self)
                } else {
                    match old(self).create_role_error(
                        signer,
                        guild_name,
                        role_name,
                        opt_requirements_view(requirements),
                    ) {
                        Some(e) => r == Err::<(), DispatchError>(e) && *final(self) == *old(self),
                        None => r is Ok && final(self).view() == old(self).view().role_created(
                            signer,
                            guild_name,
                            role_name,
                            Some(Filter::Guild(filter, filter_logic)),
                            opt_requirements_view(requirements),
                            final(self).view().role_key(guild_name, role_name),
                        ),
                    }
                },
            },
    {
        let signer = ensure_signed(origin)?;
        let guild_id = match self.guild_ids.get(&filter.name) {
            Some(id) => *id,
            None => {
                return Err(DispatchError::Guild(GuildError::GuildDoesNotExist));
            },
        };
        match filter.role {
            Some(parent_role_name) => {
                if !self.role_ids.contains_key(&(guild_id, parent_role_name)) {
                    return Err(DispatchError::Guild(GuildError::RoleDoesNotExist));
                }
            },
            None => {},
        }
        self.do_create_role(
            rng,
            signer,
            guild_name,
            role_name,
            Some(Filter::Guild(filter, filter_logic)),
            requirements,
        )?;
        Ok(())
    }

    /// The signer creates role `role_name` of its guild `guild_name`, gated
    /// by off-chain requirements alone.
    pub fn create_unfiltered_role<R: Randomness>(
        &mut self,
        rng: &R,
        origin: Origin,
        guild_name: GuildName,
        role_name: RoleName,
        requirements: SerializedRequirements,
    ) -> (r: Result<(), DispatchError>)
        requires
            old(self).wf(),
        ensures
            final(self).wf(),
            final(self).cfg() == old(self).cfg(),
            match signer_of(origin) {
                None => r == Err::<(), DispatchError>(DispatchError::BadOrigin) && *final(self)
                    == *old(self),
                Some(signer) => match old(self).create_role_error(
                    signer,
                    guild_name,
                    role_name,
                    Some(requirements_view(requirements)),
                ) {
                    Some(e) => r == Err::<(), DispatchError>(e) && *final(self) == *old(self),
                    None => r is Ok && final(self).view() == old(self).view().role_created(
                        signer,
                        guild_name,
                        role_name,
                        None,
                        Some(requirements_view(requirements)),
                        final(self).view().role_key(guild_name, role_name),
                    ),
                },
            },
    {
        let signer = ensure_signed(origin)?;
        self.do_create_role(rng, signer, guild_name, role_name, None, Some(requirements))?;
        Ok(())
    }
}


// ---------------------------------------------------------------- laws

/// Leaving a role undoes joining it: the membership is gone, and the other
/// memberships are as they were.
pub proof fn law_leave_undoes_join(s: GuildState, rid: RoleId, who: AccountId, g: GuildName, r: RoleName)
    ensures
        s.assigned(rid, who, g, r).stripped(rid, who, g, r).members == s.members.remove((rid, who)),
        !s.members.contains((rid, who)) ==> s.assigned(rid, who, g, r).stripped(rid, who, g, r).members
            == s.members,
{
    assert(s.members.insert((rid, who)).remove((rid, who)) =~= s.members.remove((rid, who)));
    if !s.members.contains((rid, who)) {
        assert(s.members.remove((rid, who)) =~= s.members);
    }
}

/// After the oracle answered an access check, the account holds the role
/// exactly when the answer was positive.
pub proof fn law_answer_decides_membership(s: GuildState, a: AccessCheckRequest, result: bool)
    ensures
        Pallet::answered(s, a, result).members.contains(
            (s.role_key(a.guild_name, a.role_name), a.account),
        ) == result,
        Pallet::answered(s, a, result).role_ids == s.role_ids,
{
}

/// The request that joining puts before the oracle carries the guild
/// pallet's index and decodes, when the answer arrives, to the access check
/// of the account for the role it asked for.
pub proof fn law_access_request_reaches_callback(
    oracle_before: &oracle::Pallet,
    oracle_after: &oracle::Pallet,
    balances_before: &Balances,
    balances_after: &Balances,
    now: BlockNumber,
    pallet_index: u32,
    who: AccountId,
    g: GuildName,
    r: RoleName,
)
    requires
        oracle_requested(oracle_before, oracle_after, balances_before, balances_after, now, pallet_index, who, g, r),
    ensures
        ({
            let request = oracle_after.view().requests[oracle_before.view().next_request_identifier];
            &&& oracle_after.view().requests.contains_key(oracle_before.view().next_request_identifier)
            &&& request.pallet_index == pallet_index
            &&& request.requester == who
            &&& AccessCheckRequest::spec_decode(request.data) == Some(access_request(who, g, r))
        }),
{
    access_request(who, g, r).lemma_roundtrip();
}


// ------------------------------------------------- laws of joining roles

/// Role `r` of guild `g` exists and `who` is registered with the identity
/// pallet: the conditions under which a role can be used at all.
pub open spec fn usable_role(p: &Pallet, identity: &identity::Pallet, who: AccountId, g: GuildName, r: RoleName) -> bool {
    let s = p.view();
    &&& s.guild_ids.contains_key(g)
    &&& s.role_ids.contains_key((s.guild_ids[g], r))
    &&& s.roles.contains_key(s.role_ids[(s.guild_ids[g], r)])
    &&& identity.view().addresses.contains_key(who)
}

/// The stored data of role `r` of guild `g`.
pub open spec fn role_data(p: &Pallet, g: GuildName, r: RoleName) -> RoleView {
    let s = p.view();
    s.roles[s.role_ids[(s.guild_ids[g], r)]]
}

/// A role with a filter, or with requirements, is never joined for free;
/// a role with neither is.
pub proof fn law_free_roles_have_no_rules(
    p: &Pallet,
    identity: &identity::Pallet,
    who: AccountId,
    g: GuildName,
    r: RoleName,
)
    requires
        usable_role(p, identity, who, g, r),
    ensures
        role_data(p, g, r).filter is Some || role_data(p, g, r).requirements is Some
            ==> p.join_free_role_error(identity, Origin::Signed(who), g, r) == Some(
            DispatchError::Guild(GuildError::InvalidJoinRequest),
        ),
        role_data(p, g, r).filter is None && role_data(p, g, r).requirements is None
            ==> p.join_free_role_error(identity, Origin::Signed(who), g, r) is None,
{
}

/// Joining without a filter goes to the oracle only for a role that has no
/// filter and has requirements: every role with a filter, and every role
/// without requirements, is refused as an invalid join request, and the
/// oracle is asked (with its own refusals) otherwise.
pub proof fn law_unfiltered_join_only_without_filter(
    p: &Pallet,
    identity: &identity::Pallet,
    oracle: &oracle::Pallet,
    balances: &Balances,
    who: AccountId,
    g: GuildName,
    r: RoleName,
)
    requires
        usable_role(p, identity, who, g, r),
    ensures
        role_data(p, g, r).filter is Some || role_data(p, g, r).requirements is None
            ==> p.join_unfiltered_role_error(identity, oracle, balances, Origin::Signed(who), g, r)
            == Some(DispatchError::Guild(GuildError::InvalidJoinRequest)),
        role_data(p, g, r).filter is None && role_data(p, g, r).requirements is Some
            ==> p.join_unfiltered_role_error(identity, oracle, balances, Origin::Signed(who), g, r)
            == oracle.initiate_request_error(balances, Origin::Signed(who), oracle.cfg().minimum_fee),
{
}

/// A filter that is combined with the requirements by `Or` already decides
/// the role, whether it is a guild filter or an allowlist: asking the
/// oracle to check a registered account again is then refused.
pub proof fn law_or_filter_needs_no_oracle(
    p: &Pallet,
    identity: &identity::Pallet,
    oracle: &oracle::Pallet,
    balances: &Balances,
    signer: AccountId,
    account: AccountId,
    g: GuildName,
    r: RoleName,
)
    requires
        signer != account,
        usable_role(p, identity, account, g, r),
        (role_data(p, g, r).filter matches Some(Filter::Guild(_, l)) && l is Or)
            || (role_data(p, g, r).filter matches Some(Filter::Allowlist(_, l, _)) && l is Or),
    ensures
        p.request_access_check_error(identity, oracle, balances, Origin::Signed(signer), account, g, r)
            == Some(DispatchError::Guild(GuildError::InvalidOracleRequest)),
{
}

/// For a registered account and a role without an `Or` filter, a new check
/// goes to the oracle exactly when the role has requirements.
pub proof fn law_access_check_asks_oracle_for_requirements(
    p: &Pallet,
    identity: &identity::Pallet,
    oracle: &oracle::Pallet,
    balances: &Balances,
    signer: AccountId,
    account: AccountId,
    g: GuildName,
    r: RoleName,
)
    requires
        signer != account,
        usable_role(p, identity, account, g, r),
        !(role_data(p, g, r).filter matches Some(Filter::Guild(_, l)) && l is Or),
        !(role_data(p, g, r).filter matches Some(Filter::Allowlist(_, l, _)) && l is Or),
    ensures
        role_data(p, g, r).requirements is Some ==> p.request_access_check_error(
            identity,
            oracle,
            balances,
            Origin::Signed(signer),
            account,
            g,
            r,
        ) == oracle.initiate_request_error(balances, Origin::Signed(account), oracle.cfg().minimum_fee),
        role_data(p, g, r).requirements is None ==> p.request_access_check_error(
            identity,
            oracle,
            balances,
            Origin::Signed(signer),
            account,
            g,
            r,
        ) == Some(DispatchError::Guild(GuildError::InvalidOracleRequest)),
{
}

/// With every role of a guild known by id, an account holds one of the
/// guild's roles `roles[i..]` exactly when some role from `i` on is held.
proof fn lemma_roles_scan_any(s: GuildState, gid: GuildId, roles: Seq<RoleName>, account: AccountId, i: int)
    requires
        0 <= i <= roles.len(),
        forall|j: int| 0 <= j < roles.len() ==> #[trigger] s.role_ids.contains_key((gid, roles[j])),
    ensures
        roles_scan(s, gid, roles, account, i) <==> exists|j: int|
            i <= j < roles.len() && #[trigger] s.members.contains((s.role_ids[(gid, roles[j])], account)),
    decreases roles.len() - i,
{
    if i < roles.len() {
        lemma_roles_scan_any(s, gid, roles, account, i + 1);
        assert(s.role_ids.contains_key((gid, roles[i])));
        if s.members.contains((s.role_ids[(gid, roles[i])], account)) {
            assert(exists|j: int|
                i <= j < roles.len() && #[trigger] s.members.contains((s.role_ids[(gid, roles[j])], account)));
        } else {
            assert forall|j: int|
                i <= j < roles.len() && #[trigger] s.members.contains((s.role_ids[(gid, roles[j])], account))
                implies i + 1 <= j by {}
        }
    }
}

/// A guild filter that names no role lets in exactly the holders of some
/// role of the parent guild, the last as much as the first: with an `And`
/// filter and no requirements, joining the child role succeeds (the role is
/// given) exactly when the account holds one of the parent guild's roles.
pub proof fn law_guild_filter_admits_any_parent_role(
    p: &Pallet,
    identity: &identity::Pallet,
    oracle: &oracle::Pallet,
    balances: &Balances,
    who: AccountId,
    g: GuildName,
    r: RoleName,
    parent: GuildName,
)
    requires
        usable_role(p, identity, who, g, r),
        role_data(p, g, r).filter == Some(Filter::Guild(GuildFilter { name: parent, role: None }, Logic::And)),
        role_data(p, g, r).requirements is None,
        p.view().guild_ids.contains_key(parent),
        p.view().guilds.contains_key(p.view().guild_ids[parent]),
        forall|j: int|
            0 <= j < p.view().guilds[p.view().guild_ids[parent]].roles.len() ==> #[trigger] p.view().role_ids.contains_key(
                (p.view().guild_ids[parent], p.view().guilds[p.view().guild_ids[parent]].roles[j]),
            ),
    ensures
        ({
            let s = p.view();
            let pgid = s.guild_ids[parent];
            let roles = s.guilds[pgid].roles;
            &&& p.join_child_role_error(identity, oracle, balances, Origin::Signed(who), g, r) is None
                <==> exists|j: int|
                0 <= j < roles.len() && #[trigger] s.members.contains((s.role_ids[(pgid, roles[j])], who))
            &&& p.join_child_role_error(identity, oracle, balances, Origin::Signed(who), g, r) is Some
                ==> p.join_child_role_error(identity, oracle, balances, Origin::Signed(who), g, r)
                == Some(DispatchError::Guild(GuildError::AccessDenied))
        }),
{
    let s = p.view();
    let pgid = s.guild_ids[parent];
    lemma_roles_scan_any(s, pgid, s.guilds[pgid].roles, who, 0);
}

/// A guild filter naming a role lets in exactly the holders of that role.
pub proof fn law_guild_filter_admits_named_role(
    p: &Pallet,
    identity: &identity::Pallet,
    oracle: &oracle::Pallet,
    balances: &Balances,
    who: AccountId,
    g: GuildName,
    r: RoleName,
    parent: GuildName,
    parent_role: RoleName,
)
    requires
        usable_role(p, identity, who, g, r),
        role_data(p, g, r).filter == Some(
            Filter::Guild(GuildFilter { name: parent, role: Some(parent_role) }, Logic::And),
        ),
        role_data(p, g, r).requirements is None,
    ensures
        ({
            let s = p.view();
            &&& p.join_child_role_error(identity, oracle, balances, Origin::Signed(who), g, r) is None
                <==> (s.guild_ids.contains_key(parent) && s.role_ids.contains_key(
                (s.guild_ids[parent], parent_role),
            ) && s.members.contains((s.role_ids[(s.guild_ids[parent], parent_role)], who)))
        }),
{
}

/// For a registered account and an allowlist role: a valid proof under
/// `Or` is always accepted, requirements or not; a valid proof under `And`
/// goes to the oracle when there are requirements and is accepted when there
/// are none; an invalid proof under `And`, or with no requirements, is
/// refused as access denied; an invalid proof under `Or` goes to the oracle
/// when there are requirements.
pub proof fn law_allowlist_join_outcome(
    p: &Pallet,
    identity: &identity::Pallet,
    oracle: &oracle::Pallet,
    balances: &Balances,
    who: AccountId,
    g: GuildName,
    r: RoleName,
    proof_valid: bool,
)
    requires
        usable_role(p, identity, who, g, r),
        role_data(p, g, r).filter matches Some(Filter::Allowlist(_, _, _)),
    ensures
        ({
            let role = role_data(p, g, r);
            let logic = role.filter->Some_0->Allowlist_1;
            let err = p.join_role_with_allowlist_error(
                identity,
                oracle,
                balances,
                Origin::Signed(who),
                g,
                r,
                proof_valid,
            );
            let oracle_err = oracle.initiate_request_error(
                balances,
                Origin::Signed(who),
                oracle.cfg().minimum_fee,
            );
            &&& proof_valid && logic is Or ==> err is None
            &&& proof_valid && role.requirements is None ==> err is None
            &&& proof_valid && logic is And && role.requirements is Some ==> err == oracle_err
            &&& !proof_valid && (logic is And || role.requirements is None) ==> err == Some(
                DispatchError::Guild(GuildError::AccessDenied),
            )
            &&& !proof_valid && logic is Or && role.requirements is Some ==> err == oracle_err
        }),
{
}

/// A filter that is passed under `Or` gives the role at once, with or
/// without requirements, and asks nothing of the oracle; a filter that is
/// passed under `And` with requirements leaves the roles unchanged and asks
/// the oracle, reserving the minimum fee; a filter that is not passed, with
/// no requirements, never succeeds.
pub proof fn law_access_outcomes(
    before: GuildState,
    after: GuildState,
    oracle_before: &oracle::Pallet,
    oracle_after: &oracle::Pallet,
    balances_before: &Balances,
    balances_after: &Balances,
    now: BlockNumber,
    pallet_index: u32,
    who: AccountId,
    logic: Logic,
    requirements: bool,
    g: GuildName,
    r: RoleName,
    rid: RoleId,
)
    ensures
        Pallet::evaluated(before, after, oracle_before, oracle_after, balances_before, balances_after,
            now, pallet_index, who, true, Logic::Or, requirements, g, r, rid)
            ==> after.members == before.members.insert((rid, who)) && *oracle_after == *oracle_before
            && *balances_after == *balances_before,
        Pallet::evaluated(before, after, oracle_before, oracle_after, balances_before, balances_after,
            now, pallet_index, who, true, Logic::And, true, g, r, rid)
            ==> after == before && balances_after.spec_reserved(who) == balances_before.spec_reserved(who)
            + oracle_before.cfg().minimum_fee,
        !Pallet::evaluated(before, after, oracle_before, oracle_after, balances_before, balances_after,
            now, pallet_index, who, false, logic, false, g, r, rid),
{
}

/// An account that is not registered with the identity pallet joins no
/// role and leaves none, whatever the role's rules: each call is refused
/// with `UserNotRegistered`.
pub proof fn law_unregistered_accounts_join_nothing(
    p: &Pallet,
    identity: &identity::Pallet,
    oracle: &oracle::Pallet,
    balances: &Balances,
    who: AccountId,
    g: GuildName,
    r: RoleName,
    proof_valid: bool,
)
    requires
        p.view().guild_ids.contains_key(g),
        p.view().role_ids.contains_key((p.view().guild_ids[g], r)),
        !identity.view().addresses.contains_key(who),
    ensures
        ({
            let e = Some(DispatchError::Guild(GuildError::UserNotRegistered));
            let o = Origin::Signed(who);
            &&& p.join_free_role_error(identity, o, g, r) == e
            &&& p.join_child_role_error(identity, oracle, balances, o, g, r) == e
            &&& p.join_role_with_allowlist_error(identity, oracle, balances, o, g, r, proof_valid) == e
            &&& p.join_unfiltered_role_error(identity, oracle, balances, o, g, r) == e
            &&& p.leave_error(identity, o, g, r) == e
        }),
{
}

/// A check asked for an account that is no longer registered succeeds
/// exactly when the account holds the role (which it then loses), and is
/// refused with `UserNotJoined` otherwise; the oracle is not involved.
pub proof fn law_unregistered_account_check(
    p: &Pallet,
    identity: &identity::Pallet,
    oracle: &oracle::Pallet,
    balances: &Balances,
    signer: AccountId,
    account: AccountId,
    g: GuildName,
    r: RoleName,
)
    requires
        signer != account,
        p.view().guild_ids.contains_key(g),
        p.view().role_ids.contains_key((p.view().guild_ids[g], r)),
        !identity.view().addresses.contains_key(account),
    ensures
        ({
            let s = p.view();
            let err = p.request_access_check_error(identity, oracle, balances, Origin::Signed(signer), account, g, r);
            &&& err is None <==> s.members.contains((s.role_ids[(s.guild_ids[g], r)], account))
            &&& err is Some ==> err == Some(DispatchError::Guild(GuildError::UserNotJoined))
        }),
{
}

/// Nobody checks their own access, and only signed accounts ask for checks.
pub proof fn law_no_self_check(
    p: &Pallet,
    identity: &identity::Pallet,
    oracle: &oracle::Pallet,
    balances: &Balances,
    account: AccountId,
    g: GuildName,
    r: RoleName,
)
    ensures
        p.request_access_check_error(identity, oracle, balances, Origin::Signed(account), account, g, r)
            == Some(DispatchError::BadOrigin),
        p.request_access_check_error(identity, oracle, balances, Origin::Root, account, g, r)
            == Some(DispatchError::BadOrigin),
{
}

/// Only the owner of a guild adds roles to it, and a role name is used once
/// per guild.
pub proof fn law_roles_belong_to_owner(
    p: &Pallet,
    signer: AccountId,
    g: GuildName,
    r: RoleName,
)
    requires
        p.view().guild_ids.contains_key(g),
        p.view().guilds.contains_key(p.view().guild_ids[g]),
    ensures
        p.view().role_ids.contains_key((p.view().guild_ids[g], r)) ==> p.create_role_error(
            signer,
            g,
            r,
            None,
        ) == Some(DispatchError::Guild(GuildError::RoleAlreadyExists)),
        !p.view().role_ids.contains_key((p.view().guild_ids[g], r)) && p.view().guilds[p.view().guild_ids[g]].owner
            != signer ==> p.create_role_error(signer, g, r, None) == Some(DispatchError::BadOrigin),
{
}
} // verus!
