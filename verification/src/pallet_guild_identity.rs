//! # The identity pallet
//!
//! An account registers to have a map of linked addresses, a map of linked
//! identities and two authority slots. An address links itself to a primary
//! account with a signature of one of the primary's authorities. Identities
//! on other platforms are linked once an oracle has checked them.
use vstd::prelude::*;
use crate::balances::Balances;
use crate::collections::StorageMap;
use crate::dispatch::{
    ensure_root, ensure_signed, signer_of, AccountId, BlockNumber, DispatchError, IdentityError,
    Origin,
};
use crate::pallet_oracle::{self as oracle, RequestIdentifier};
use crate::requests::{LinkIdentityRequest, LinkedIdentity, Prefix};

verus! {

/// The hash of an authority's public key.
pub type Authority = [u8; 32];

/// Constants of the pallet.
#[derive(PartialEq, Eq, Structural, Clone, Copy, Debug)]
pub struct IdentityConfig {
    pub max_linked_addresses: u32,
    pub max_linked_address_types: u32,
    pub max_linked_identity_types: u32,
    /// Index of the pallet in the runtime, carried by its oracle requests.
    pub pallet_index: u32,
}

/// Events of the pallet.
#[derive(PartialEq, Eq, Clone, Copy, Debug)]
pub enum Event {
    Authorized(AccountId, Authority),
    AccountRegistered(AccountId),
    AccountDeregistered(AccountId),
    AddressLinked(AccountId, Prefix, AccountId),
    AddressUnlinked(AccountId, Prefix, AccountId),
    AddressesRemoved(AccountId, Prefix),
    IdentityLinked(AccountId, Prefix, LinkedIdentity),
    IdentityUnlinked(AccountId, Prefix, LinkedIdentity),
}

/// Addresses linked to an account, by prefix.
pub type AddressMap = StorageMap<Prefix, Vec<AccountId>>;

/// Identities linked to an account, by prefix.
pub type IdentityMap = StorageMap<Prefix, LinkedIdentity>;

/// The storage of the pallet.
pub struct Pallet {
    config: IdentityConfig,
    addresses: StorageMap<AccountId, AddressMap>,
    identities: StorageMap<AccountId, IdentityMap>,
    authorities: StorageMap<AccountId, [Authority; 2]>,
    events: Vec<Event>,
}

/// The abstract state of the pallet.
pub struct IdentityState {
    pub addresses: Map<AccountId, Map<Prefix, Seq<AccountId>>>,
    pub identities: Map<AccountId, Map<Prefix, LinkedIdentity>>,
    pub authorities: Map<AccountId, [Authority; 2]>,
    pub events: Seq<Event>,
}

/// The abstract view of an address map.
pub open spec fn address_map_view(m: AddressMap) -> Map<Prefix, Seq<AccountId>> {
    m.view().map_values(|v: Vec<AccountId>| v@)
}

/// The authorities of a newly registered account: two zero hashes.
pub open spec fn no_authorities(a: [Authority; 2]) -> bool {
    &&& a@.len() == 2
    &&& a@[0]@ == Seq::new(32, |i: int| 0u8)
    &&& a@[1]@ == Seq::new(32, |i: int| 0u8)
}

impl Pallet {
    pub closed spec fn view(&self) -> IdentityState {
        IdentityState {
            addresses: self.addresses.view().map_values(|m: AddressMap| address_map_view(m)),
            identities: self.identities.view().map_values(|m: IdentityMap| m.view()),
            authorities: self.authorities.view(),
            events: self.events@,
        }
    }

    /// The constants the pallet was made with.
    pub closed spec fn cfg(&self) -> IdentityConfig {
        self.config
    }

    /// The storage invariant: the registered accounts are those with an
    /// authority entry, and exactly those have address and identity maps;
    /// the maps keep within their bounds and no address is linked twice
    /// under one prefix.
    pub closed spec fn wf(&self) -> bool {
        &&& self.addresses.wf()
        &&& self.identities.wf()
        &&& self.authorities.wf()
        &&& self.addresses.view().dom() == self.authorities.view().dom()
        &&& self.identities.view().dom() == self.authorities.view().dom()
        &&& forall|a: AccountId| #[trigger]
            self.addresses.view().contains_key(a) ==> self.addresses.view()[a].wf()
        &&& forall|a: AccountId| #[trigger]
            self.identities.view().contains_key(a) ==> self.identities.view()[a].wf()
        &&& self.view().wf_maps(self.config)
    }

    pub fn new(config: IdentityConfig) -> (p: Self)
        ensures
            p.wf(),
            p.cfg() == config,
            p.view().addresses == Map::<AccountId, Map<Prefix, Seq<AccountId>>>::empty(),
            p.view().identities == Map::<AccountId, Map<Prefix, LinkedIdentity>>::empty(),
            p.view().authorities == Map::<AccountId, [Authority; 2]>::empty(),
            p.view().events == Seq::<Event>::empty(),
    {
        let p = Pallet {
            config,
            addresses: StorageMap::new(),
            identities: StorageMap::new(),
            authorities: StorageMap::new(),
            events: Vec::new(),
        };
        proof {
            assert(p.view().addresses =~= Map::<AccountId, Map<Prefix, Seq<AccountId>>>::empty());
            assert(p.view().identities =~= Map::<AccountId, Map<Prefix, LinkedIdentity>>::empty());
        }
        p
    }

    // ---------------------------------------------------------------- calls

    /// Why `register` is refused, if it is.
    pub open spec fn register_error(&self, origin: Origin) -> Option<DispatchError> {
        match signer_of(origin) {
            None => Some(DispatchError::BadOrigin),
            Some(signer) => if self.view().authorities.contains_key(signer) {
                Some(DispatchError::Identity(IdentityError::AccountAlreadyExists))
            } else {
                None
            },
        }
    }

    /// The signer gets empty address and identity maps and two zero
    /// authorities.
    pub fn register(&mut self, origin: Origin) -> (r: Result<(), DispatchError>)
        requires
            old(self).wf(),
        ensures
            final(self).wf(),
            final(self).cfg() == old(self).cfg(),
            match old(self).register_error(origin) {
                Some(e) => r == Err::<(), DispatchError>(e) && *final(self) == *old(self),
                None => {
                    let signer = signer_of(origin)->0;
                    &&& r is Ok
                    &&& final(self).view().addresses == old(self).view().addresses.insert(
                        signer,
                        Map::empty(),
                    )
                    &&& final(self).view().identities == old(self).view().identities.insert(
                        signer,
                        Map::empty(),
                    )
                    &&& final(self).view().authorities.dom() == old(
                        self,
                    ).view().authorities.dom().insert(signer)
                    &&& no_authorities(final(self).view().authorities[signer])
                    &&& forall|a: AccountId|
                        a != signer ==> #[trigger] final(self).view().authorities.get(a) == old(
                            self,
                        ).view().authorities.get(a)
                    &&& final(self).view().events == old(self).view().events.push(
                        Event::AccountRegistered(signer),
                    )
                },
            },
    {
        let signer = ensure_signed(origin)?;
        if self.authorities.contains_key(&signer) {
            return Err(DispatchError::Identity(IdentityError::AccountAlreadyExists));
        }
        proof {
            self.addresses.lemma_view();
            self.identities.lemma_view();
        }
        self.addresses.insert(signer, StorageMap::new());
        self.identities.insert(signer, StorageMap::new());
        let zero: Authority = [0u8; 32];
        self.authorities.insert(signer, [zero, zero]);
        self.events.push(Event::AccountRegistered(signer));
        proof {
            assert(zero@ =~= Seq::new(32, |i: int| 0u8));
            assert(address_map_view(self.addresses.view()[signer]) =~= Map::<Prefix, Seq<AccountId>>::empty());
            assert(self.identities.view()[signer].view() =~= Map::<Prefix, LinkedIdentity>::empty());
            assert(self.view().addresses =~= old(self).view().addresses.insert(signer, Map::empty()));
            assert(self.view().identities =~= old(self).view().identities.insert(signer, Map::empty()));
            assert(self.addresses.view().dom() =~= self.authorities.view().dom());
            assert(self.identities.view().dom() =~= self.authorities.view().dom());
            old(self).lemma_wf_facts();
            self.addresses.view()[signer].lemma_view();
            self.identities.view()[signer].lemma_view();
            assert(self.view().wf_maps(self.config)) by {
                assert forall|a: AccountId| #[trigger] self.view().addresses.contains_key(a) implies self.view().addresses[a].dom().finite()
                    && self.view().addresses[a].len() <= self.config.max_linked_address_types
                    && forall|p: Prefix| #[trigger] self.view().addresses[a].contains_key(p) ==> self.view().addresses[a][p].len()
                        <= self.config.max_linked_addresses && self.view().addresses[a][p].no_duplicates() by {
                    if a != signer {
                        assert(self.view().addresses[a] == old(self).view().addresses[a]);
                    } else {
                        assert(self.view().addresses[a] =~= Map::empty());
                    }
                }
                assert forall|a: AccountId| #[trigger] self.view().identities.contains_key(a) implies self.view().identities[a].dom().finite()
                    && self.view().identities[a].len() <= self.config.max_linked_identity_types by {
                    if a != signer {
                        assert(self.view().identities[a] == old(self).view().identities[a]);
                    } else {
                        assert(self.view().identities[a] =~= Map::empty());
                    }
                }
            }
        }
        Ok(())
    }

    /// Why `deregister` is refused, if it is.
    pub open spec fn deregister_error(&self, origin: Origin) -> Option<DispatchError> {
        match signer_of(origin) {
            None => Some(DispatchError::BadOrigin),
            Some(signer) => if !self.view().authorities.contains_key(signer) {
                Some(DispatchError::Identity(IdentityError::AccountDoesNotExist))
            } else {
                None
            },
        }
    }

    /// Removes the signer's addresses, identities and authorities.
    pub fn deregister(&mut self, origin: Origin) -> (r: Result<(), DispatchError>)
        requires
            old(self).wf(),
        ensures
            final(self).wf(),
            final(self).cfg() == old(self).cfg(),
            match old(self).deregister_error(origin) {
                Some(e) => r == Err::<(), DispatchError>(e) && *final(self) == *old(self),
                None => {
                    let signer = signer_of(origin)->0;
                    &&& r is Ok
                    &&& final(self).view() == (IdentityState {
                        addresses: old(self).view().addresses.remove(signer),
                        identities: old(self).view().identities.remove(signer),
                        authorities: old(self).view().authorities.remove(signer),
                        events: old(self).view().events.push(Event::AccountDeregistered(signer)),
                    })
                },
            },
    {
        let signer = ensure_signed(origin)?;
        if !self.authorities.contains_key(&signer) {
            return Err(DispatchError::Identity(IdentityError::AccountDoesNotExist));
        }
        self.addresses.remove(&signer);
        self.identities.remove(&signer);
        self.authorities.remove(&signer);
        self.events.push(Event::AccountDeregistered(signer));
        proof {
            assert(self.view().addresses =~= old(self).view().addresses.remove(signer));
            assert(self.view().identities =~= old(self).view().identities.remove(signer));
            assert(self.addresses.view().dom() =~= self.authorities.view().dom());
            assert(self.identities.view().dom() =~= self.authorities.view().dom());
            assert(self.view().wf_maps(self.config)) by {
                assert forall|a: AccountId| #[trigger] self.view().addresses.contains_key(a) implies old(self).view().addresses.contains_key(a) && self.view().addresses[a] == old(self).view().addresses[a] by {}
                assert forall|a: AccountId| #[trigger] self.view().identities.contains_key(a) implies old(self).view().identities.contains_key(a) && self.view().identities[a] == old(self).view().identities[a] by {}
            }
        }
        Ok(())
    }

    /// Why `authorize` is refused, if it is: an authority may not fill both
    /// slots, so it is refused when it already sits in the slot that is not
    /// written.
    pub open spec fn authorize_error(&self, origin: Origin, authority: Authority, index: bool) -> Option<
        DispatchError,
    > {
        match signer_of(origin) {
            None => Some(DispatchError::BadOrigin),
            Some(signer) => if !self.view().authorities.contains_key(signer) {
                Some(DispatchError::Identity(IdentityError::AccountDoesNotExist))
            } else if self.view().authorities[signer]@[if index { 0int } else { 1int }] == authority {
                Some(DispatchError::Identity(IdentityError::AlreadyAuthorized))
            } else {
                None
            },
        }
    }

    /// Puts `authority` in the second slot of the signer's authorities when
    /// `index` is set, else in the first.
    pub fn authorize(&mut self, origin: Origin, authority: Authority, index: bool) -> (r: Result<
        (),
        DispatchError,
    >)
        requires
            old(self).wf(),
        ensures
            final(self).wf(),
            final(self).cfg() == old(self).cfg(),
            match old(self).authorize_error(origin, authority, index) {
                Some(e) => r == Err::<(), DispatchError>(e) && *final(self) == *old(self),
                None => {
                    let signer = signer_of(origin)->0;
                    &&& r is Ok
                    &&& final(self).view().addresses == old(self).view().addresses
                    &&& final(self).view().identities == old(self).view().identities
                    &&& final(self).view().authorities.dom() == old(
                        self,
                    ).view().authorities.dom()
                    &&& final(self).view().authorities[signer]@ == old(
                        self,
                    ).view().authorities[signer]@.update(if index { 1int } else { 0int }, authority)
                    &&& forall|a: AccountId|
                        a != signer ==> #[trigger] final(self).view().authorities.get(a) == old(
                            self,
                        ).view().authorities.get(a)
                    &&& final(self).view().events == old(self).view().events.push(
                        Event::Authorized(signer, authority),
                    )
                },
            },
    {
        let signer = ensure_signed(origin)?;
        let mut authorities = match self.authorities.get(&signer) {
            Some(a) => *a,
            None => {
                return Err(DispatchError::Identity(IdentityError::AccountDoesNotExist));
            },
        };
        let other: usize = if index { 0 } else { 1 };
        if crate::collections::bytes_eq(&authorities[other], &authority) {
            return Err(DispatchError::Identity(IdentityError::AlreadyAuthorized));
        }
        if index {
            authorities[1] = authority;
        } else {
            authorities[0] = authority;
        }
        self.authorities.insert(signer, authorities);
        self.events.push(Event::Authorized(signer, authority));
        proof {
            assert(self.view().addresses == old(self).view().addresses);
            assert(self.view().identities == old(self).view().identities);
            assert(self.view().wf_maps(self.config));
            assert(self.addresses.view().dom() =~= self.authorities.view().dom());
            assert(self.identities.view().dom() =~= self.authorities.view().dom());
        }
        Ok(())
    }

    /// Why `link_address` is refused, if it is. `authority` is the hashed
    /// public key recovered from the authority signature, `None` when no key
    /// could be recovered.
    pub open spec fn link_address_error(
        &self,
        origin: Origin,
        primary: AccountId,
        prefix: Prefix,
        authority: Option<Authority>,
    ) -> Option<DispatchError> {
        match signer_of(origin) {
            None => Some(DispatchError::BadOrigin),
            Some(signer) => match authority {
                None => Some(DispatchError::Identity(IdentityError::InvalidAuthoritySignature)),
                Some(a) => if !self.view().authorities.contains_key(primary) {
                    Some(DispatchError::Identity(IdentityError::AccountDoesNotExist))
                } else if !self.view().authorities[primary]@.contains(a) {
                    Some(DispatchError::Identity(IdentityError::UnknownAuthority))
                } else {
                    let m = self.view().addresses[primary];
                    if m.contains_key(prefix) {
                        if m[prefix].contains(signer) {
                            Some(DispatchError::Identity(IdentityError::AddressAlreadyLinked))
                        } else if m[prefix].len() >= self.cfg().max_linked_addresses {
                            Some(DispatchError::Identity(IdentityError::MaxLinkedAddressesExceeded))
                        } else {
                            None
                        }
                    } else if self.cfg().max_linked_addresses == 0 {
                        Some(DispatchError::Identity(IdentityError::MaxLinkedAddressesExceeded))
                    } else if m.len() >= self.cfg().max_linked_address_types {
                        Some(DispatchError::Identity(IdentityError::MaxLinkedAddressTypesExceeded))
                    } else {
                        None
                    }
                },
            },
        }
    }

    /// The addresses of `primary` once `address` is linked under `prefix`.
    pub open spec fn linked(
        m: Map<Prefix, Seq<AccountId>>,
        prefix: Prefix,
        address: AccountId,
    ) -> Map<Prefix, Seq<AccountId>> {
        if m.contains_key(prefix) {
            m.insert(prefix, m[prefix].push(address))
        } else {
            m.insert(prefix, seq![address])
        }
    }

    /// The signer links itself to `primary` under `prefix`. `authority` is
    /// the hashed public key recovered from the signature of the signer's
    /// account id by one of the primary's authorities, or `None` when the
    /// signature does not yield a key.
    pub fn link_address(
        &mut self,
        origin: Origin,
        primary: AccountId,
        prefix: Prefix,
        authority: Option<Authority>,
    ) -> (r: Result<(), DispatchError>)
        requires
            old(self).wf(),
        ensures
            final(self).wf(),
            final(self).cfg() == old(self).cfg(),
            match old(self).link_address_error(origin, primary, prefix, authority) {
                Some(e) => r == Err::<(), DispatchError>(e) && *final(self) == *old(self),
                None => {
                    let signer = signer_of(origin)->0;
                    &&& r is Ok
                    &&& final(self).view() == (IdentityState {
                        addresses: old(self).view().addresses.insert(
                            primary,
                            Self::linked(old(self).view().addresses[primary], prefix, signer),
                        ),
                        events: old(self).view().events.push(
                            Event::AddressLinked(primary, prefix, signer),
                        ),
                        ..old(self).view()
                    })
                },
            },
    {
        let signer = ensure_signed(origin)?;
        let authority = match authority {
            Some(a) => a,
            None => {
                return Err(DispatchError::Identity(IdentityError::InvalidAuthoritySignature));
            },
        };
        let authorities = match self.authorities.get(&primary) {
            Some(a) => *a,
            None => {
                return Err(DispatchError::Identity(IdentityError::AccountDoesNotExist));
            },
        };
        let first = crate::collections::bytes_eq(&authorities[0], &authority);
        let second = crate::collections::bytes_eq(&authorities[1], &authority);
        if !(first || second) {
            proof {
                assert(!authorities@.contains(authority)) by {
                    if authorities@.contains(authority) {
                        let j = choose|j: int| 0 <= j < 2 && authorities@[j] == authority;
                        assert(j == 0 || j == 1);
                    }
                }
            }
            return Err(DispatchError::Identity(IdentityError::UnknownAuthority));
        }
        proof {
            if first {
                assert(authorities@[0] == authority);
            } else {
                assert(authorities@[1] == authority);
            }
        }
        proof {
            self.lemma_wf_facts();
        }
        let map = match self.addresses.get(&primary) {
            Some(m) => m,
            None => {
                return Err(DispatchError::Identity(IdentityError::AccountDoesNotExist));
            },
        };
        match map.get(&prefix) {
            Some(addresses) => {
                if contains_account(addresses, signer) {
                    return Err(DispatchError::Identity(IdentityError::AddressAlreadyLinked));
                }
                if addresses.len() >= self.config.max_linked_addresses as usize {
                    return Err(DispatchError::Identity(IdentityError::MaxLinkedAddressesExceeded));
                }
            },
            None => {
                if self.config.max_linked_addresses == 0 {
                    return Err(DispatchError::Identity(IdentityError::MaxLinkedAddressesExceeded));
                }
                if map.len() >= self.config.max_linked_address_types as usize {
                    return Err(
                        DispatchError::Identity(IdentityError::MaxLinkedAddressTypesExceeded),
                    );
                }
            },
        }
        let mut map = match self.addresses.remove(&primary) {
            Some(m) => m,
            None => {
                return Err(DispatchError::Identity(IdentityError::AccountDoesNotExist));
            },
        };
        let addresses = match map.remove(&prefix) {
            Some(v) => {
                let mut v = v;
                v.push(signer);
                v
            },
            None => {
                let mut v: Vec<AccountId> = Vec::new();
                v.push(signer);
                v
            },
        };
        let ghost linked = addresses@;
        map.insert(prefix, addresses);
        self.addresses.insert(primary, map);
        self.events.push(Event::AddressLinked(primary, prefix, signer));
        proof {
            let old_m = old(self).view().addresses[primary];
            assert(old(self).addresses.view()[primary].view().contains_key(prefix) ==> linked =~= old_m[prefix].push(signer));
            assert(!old(self).addresses.view()[primary].view().contains_key(prefix) ==> linked =~= seq![signer]);
            assert(address_map_view(self.addresses.view()[primary]) =~= Self::linked(old_m, prefix, signer));
            assert(self.view().addresses =~= old(self).view().addresses.insert(primary, Self::linked(old_m, prefix, signer)));
            assert(self.addresses.view().dom() =~= self.authorities.view().dom());
            let new_m = self.addresses.view()[primary];
            let old_inner = old(self).addresses.view()[primary];
            old_inner.lemma_view();
            new_m.lemma_view();
            assert forall|p: Prefix| #[trigger] address_map_view(new_m).contains_key(p) implies address_map_view(new_m)[p].len()
                <= self.config.max_linked_addresses && address_map_view(new_m)[p].no_duplicates() by {
                if p != prefix {
                    assert(address_map_view(new_m)[p] == old_m[p]);
                } else if old_m.contains_key(prefix) {
                    assert(address_map_view(new_m)[p] == old_m[prefix].push(signer));
                    assert(address_map_view(new_m)[p].no_duplicates()) by {
                        let t = old_m[prefix].push(signer);
                        assert forall|a: int, b: int| 0 <= a < t.len() && 0 <= b < t.len() && a != b implies t[a] != t[b] by {
                            if a == t.len() - 1 {
                                assert(!old_m[prefix].contains(signer));
                                assert(old_m[prefix][b] == t[b]);
                            } else if b == t.len() - 1 {
                                assert(old_m[prefix][a] == t[a]);
                            } else {
                                assert(old_m[prefix][a] == t[a]);
                                assert(old_m[prefix][b] == t[b]);
                            }
                        }
                    }
                } else {
                    assert(address_map_view(new_m)[p] =~= seq![signer]);
                }
            }
            assert(address_map_view(new_m).len() <= self.config.max_linked_address_types) by {
                assert(address_map_view(new_m).dom() =~= new_m.view().dom());
                assert(address_map_view(old_inner).dom() =~= old_inner.view().dom());
            }
            Self::lemma_addresses_updated(old(self), self, primary);
        }
        Ok(())
    }

    /// Why `unlink_address` is refused, if it is.
    pub open spec fn unlink_address_error(&self, origin: Origin, prefix: Prefix, address: AccountId) -> Option<DispatchError> {
        match signer_of(origin) {
            None => Some(DispatchError::BadOrigin),
            Some(signer) => if !self.view().addresses.contains_key(signer) {
                Some(DispatchError::Identity(IdentityError::AccountDoesNotExist))
            } else if !self.view().addresses[signer].contains_key(prefix) {
                Some(DispatchError::Identity(IdentityError::AddressPrefixDoesNotExist))
            } else if !self.view().addresses[signer][prefix].contains(address) {
                Some(DispatchError::Identity(IdentityError::AddressDoesNotExist))
            } else {
                None
            },
        }
    }

    /// Unlinks `address` from the signer's addresses under `prefix`.
    pub fn unlink_address(&mut self, origin: Origin, prefix: Prefix, address: AccountId) -> (r: Result<(), DispatchError>)
        requires
            old(self).wf(),
        ensures
            final(self).wf(),
            final(self).cfg() == old(self).cfg(),
            match old(self).unlink_address_error(origin, prefix, address) {
                Some(e) => r == Err::<(), DispatchError>(e) && *final(self) == *old(self),
                None => {
                    let signer = signer_of(origin)->0;
                    let m = old(self).view().addresses[signer];
                    &&& r is Ok
                    &&& final(self).view() == (IdentityState {
                        addresses: old(self).view().addresses.insert(
                            signer,
                            m.insert(prefix, m[prefix].remove_value(address)),
                        ),
                        events: old(self).view().events.push(
                            Event::AddressUnlinked(signer, prefix, address),
                        ),
                        ..old(self).view()
                    })
                },
            },
    {
        let signer = ensure_signed(origin)?;
        proof {
            self.lemma_wf_facts();
        }
        let map = match self.addresses.get(&signer) {
            Some(m) => m,
            None => {
                return Err(DispatchError::Identity(IdentityError::AccountDoesNotExist));
            },
        };
        let index = match map.get(&prefix) {
            Some(addresses) => match position_of(addresses, address) {
                Some(i) => i,
                None => {
                    return Err(DispatchError::Identity(IdentityError::AddressDoesNotExist));
                },
            },
            None => {
                return Err(DispatchError::Identity(IdentityError::AddressPrefixDoesNotExist));
            },
        };
        let mut map = match self.addresses.remove(&signer) {
            Some(m) => m,
            None => {
                return Err(DispatchError::Identity(IdentityError::AccountDoesNotExist));
            },
        };
        let mut addresses = match map.remove(&prefix) {
            Some(v) => v,
            None => {
                return Err(DispatchError::Identity(IdentityError::AddressPrefixDoesNotExist));
            },
        };
        let ghost before = addresses@;
        addresses.remove(index);
        proof {
            lemma_remove_first(before, address, index as int);
        }
        map.insert(prefix, addresses);
        self.addresses.insert(signer, map);
        self.events.push(Event::AddressUnlinked(signer, prefix, address));
        proof {
            let old_m = old(self).view().addresses[signer];
            assert(address_map_view(self.addresses.view()[signer]) =~= old_m.insert(prefix, old_m[prefix].remove_value(address)));
            assert(self.view().addresses =~= old(self).view().addresses.insert(signer, old_m.insert(prefix, old_m[prefix].remove_value(address))));
            assert(self.addresses.view().dom() =~= self.authorities.view().dom());
            let new_m = self.addresses.view()[signer];
            let old_inner = old(self).addresses.view()[signer];
            old_inner.lemma_view();
            new_m.lemma_view();
            assert forall|p: Prefix| #[trigger] address_map_view(new_m).contains_key(p) implies address_map_view(new_m)[p].len()
                <= self.config.max_linked_addresses && address_map_view(new_m)[p].no_duplicates() by {
                if p != prefix {
                    assert(address_map_view(new_m)[p] == old_m[p]);
                } else {
                    let t = old_m[prefix].remove(index as int);
                    assert(address_map_view(new_m)[p] == t);
                    assert forall|a: int, b: int| 0 <= a < t.len() && 0 <= b < t.len() && a != b implies t[a] != t[b] by {
                        let oa = if a < index { a } else { a + 1 };
                        let ob = if b < index { b } else { b + 1 };
                        assert(t[a] == old_m[prefix][oa]);
                        assert(t[b] == old_m[prefix][ob]);
                    }
                }
            }
            assert(address_map_view(new_m).len() <= self.config.max_linked_address_types) by {
                assert(address_map_view(new_m).dom() =~= new_m.view().dom());
                assert(address_map_view(old_inner).dom() =~= old_inner.view().dom());
            }
            Self::lemma_addresses_updated(old(self), self, signer);
        }
        Ok(())
    }

    /// Why `remove_addresses` is refused, if it is.
    pub open spec fn remove_addresses_error(&self, origin: Origin, prefix: Prefix) -> Option<DispatchError> {
        match signer_of(origin) {
            None => Some(DispatchError::BadOrigin),
            Some(signer) => if !self.view().addresses.contains_key(signer) {
                Some(DispatchError::Identity(IdentityError::AccountDoesNotExist))
            } else if !self.view().addresses[signer].contains_key(prefix) {
                Some(DispatchError::Identity(IdentityError::AddressPrefixDoesNotExist))
            } else {
                None
            },
        }
    }

    /// Removes all of the signer's addresses under `prefix`.
    pub fn remove_addresses(&mut self, origin: Origin, prefix: Prefix) -> (r: Result<(), DispatchError>)
        requires
            old(self).wf(),
        ensures
            final(self).wf(),
            final(self).cfg() == old(self).cfg(),
            match old(self).remove_addresses_error(origin, prefix) {
                Some(e) => r == Err::<(), DispatchError>(e) && *final(self) == *old(self),
                None => {
                    let signer = signer_of(origin)->0;
                    &&& r is Ok
                    &&& final(self).view() == (IdentityState {
                        addresses: old(self).view().addresses.insert(
                            signer,
                            old(self).view().addresses[signer].remove(prefix),
                        ),
                        events: old(self).view().events.push(Event::AddressesRemoved(signer, prefix)),
                        ..old(self).view()
                    })
                },
            },
    {
        let signer = ensure_signed(origin)?;
        proof {
            self.lemma_wf_facts();
        }
        match self.addresses.get(&signer) {
            Some(m) => {
                if !m.contains_key(&prefix) {
                    return Err(DispatchError::Identity(IdentityError::AddressPrefixDoesNotExist));
                }
            },
            None => {
                return Err(DispatchError::Identity(IdentityError::AccountDoesNotExist));
            },
        }
        let mut map = match self.addresses.remove(&signer) {
            Some(m) => m,
            None => {
                return Err(DispatchError::Identity(IdentityError::AccountDoesNotExist));
            },
        };
        map.remove(&prefix);
        self.addresses.insert(signer, map);
        self.events.push(Event::AddressesRemoved(signer, prefix));
        proof {
            let old_m = old(self).view().addresses[signer];
            assert(address_map_view(self.addresses.view()[signer]) =~= old_m.remove(prefix));
            assert(self.view().addresses =~= old(self).view().addresses.insert(signer, old_m.remove(prefix)));
            assert(self.addresses.view().dom() =~= self.authorities.view().dom());
            let new_m = self.addresses.view()[signer];
            let old_inner = old(self).addresses.view()[signer];
            old_inner.lemma_view();
            new_m.lemma_view();
            assert forall|p: Prefix| #[trigger] address_map_view(new_m).contains_key(p) implies address_map_view(new_m)[p].len()
                <= self.config.max_linked_addresses && address_map_view(new_m)[p].no_duplicates() by {
                assert(address_map_view(new_m)[p] == old_m[p]);
            }
            assert(address_map_view(new_m).len() <= self.config.max_linked_address_types) by {
                assert(address_map_view(new_m).dom() =~= new_m.view().dom());
                assert(address_map_view(old_inner).dom() =~= old_inner.view().dom());
                vstd::set_lib::lemma_len_subset(new_m.view().dom(), old_inner.view().dom());
            }
            Self::lemma_addresses_updated(old(self), self, signer);
        }
        Ok(())
    }

    /// Why `link_identity` is refused, if it is.
    pub open spec fn link_identity_error(
        &self,
        oracle: &oracle::Pallet,
        balances: &Balances,
        origin: Origin,
        prefix: Prefix,
    ) -> Option<DispatchError> {
        match signer_of(origin) {
            None => Some(DispatchError::BadOrigin),
            Some(signer) => if !self.view().identities.contains_key(signer) {
                Some(DispatchError::Identity(IdentityError::AccountDoesNotExist))
            } else if self.view().identities[signer].len() >= self.cfg().max_linked_identity_types {
                Some(DispatchError::Identity(IdentityError::MaxLinkedIdentitiesExceeded))
            } else if self.view().identities[signer].contains_key(prefix) {
                Some(DispatchError::Identity(IdentityError::IdentityAlreadyLinked))
            } else {
                oracle.initiate_request_error(balances, origin, oracle.cfg().minimum_fee)
            },
        }
    }

    /// Asks the oracle to check that `identity` belongs to the signer; the
    /// minimum fee is reserved for it. Nothing is linked until the answer.
    pub fn link_identity(
        &self,
        oracle: &mut oracle::Pallet,
        balances: &mut Balances,
        now: BlockNumber,
        origin: Origin,
        prefix: Prefix,
        identity: LinkedIdentity,
    ) -> (r: Result<(), DispatchError>)
        requires
            self.wf(),
            old(oracle).wf(),
            old(balances).wf(),
        ensures
            final(oracle).wf(),
            final(balances).wf(),
            final(oracle).cfg() == old(oracle).cfg(),
            match self.link_identity_error(&*old(oracle), &*old(balances), origin, prefix) {
                Some(e) => r == Err::<(), DispatchError>(e) && *final(oracle) == *old(oracle)
                    && *final(balances) == *old(balances),
                None => {
                    let signer = signer_of(origin)->0;
                    let fee = old(oracle).cfg().minimum_fee;
                    &&& r is Ok
                    &&& final(oracle).view() == old(oracle).after_request(
                        signer,
                        now,
                        self.cfg().pallet_index,
                        (LinkIdentityRequest { requester: signer, prefix, identity }).spec_encode(),
                        fee,
                    )
                    &&& final(balances).view() == old(balances).view().insert(
                        signer,
                        crate::balances::AccountData {
                            free: (old(balances).spec_free(signer) - fee) as u64,
                            reserved: (old(balances).spec_reserved(signer) + fee) as u64,
                        },
                    )
                    &&& final(balances).spec_free(signer) == old(balances).spec_free(signer) - fee
                    &&& final(balances).spec_reserved(signer) == old(balances).spec_reserved(signer)
                        + fee
                },
            },
    {
        let signer = ensure_signed(origin)?;
        proof {
            self.lemma_wf_facts();
        }
        let map = match self.identities.get(&signer) {
            Some(m) => m,
            None => {
                return Err(DispatchError::Identity(IdentityError::AccountDoesNotExist));
            },
        };
        if map.len() >= self.config.max_linked_identity_types as usize {
            return Err(DispatchError::Identity(IdentityError::MaxLinkedIdentitiesExceeded));
        }
        if map.contains_key(&prefix) {
            return Err(DispatchError::Identity(IdentityError::IdentityAlreadyLinked));
        }
        let request = LinkIdentityRequest { requester: signer, prefix, identity };
        let fee = oracle.config().minimum_fee;
        oracle.initiate_request(balances, now, origin, self.config.pallet_index, request.encode(), fee)
    }

    /// Why `unlink_identity` is refused, if it is.
    pub open spec fn unlink_identity_error(&self, origin: Origin, prefix: Prefix) -> Option<DispatchError> {
        match signer_of(origin) {
            None => Some(DispatchError::BadOrigin),
            Some(signer) => if !self.view().identities.contains_key(signer) {
                Some(DispatchError::Identity(IdentityError::AccountDoesNotExist))
            } else if !self.view().identities[signer].contains_key(prefix) {
                Some(DispatchError::Identity(IdentityError::IdentityDoesNotExist))
            } else {
                None
            },
        }
    }

    /// Unlinks the signer's identity under `prefix`.
    pub fn unlink_identity(&mut self, origin: Origin, prefix: Prefix) -> (r: Result<(), DispatchError>)
        requires
            old(self).wf(),
        ensures
            final(self).wf(),
            final(self).cfg() == old(self).cfg(),
            match old(self).unlink_identity_error(origin, prefix) {
                Some(e) => r == Err::<(), DispatchError>(e) && *final(self) == *old(self),
                None => {
                    let signer = signer_of(origin)->0;
                    let m = old(self).view().identities[signer];
                    &&& r is Ok
                    &&& final(self).view() == (IdentityState {
                        identities: old(self).view().identities.insert(signer, m.remove(prefix)),
                        events: old(self).view().events.push(
                            Event::IdentityUnlinked(signer, prefix, m[prefix]),
                        ),
                        ..old(self).view()
                    })
                },
            },
    {
        let signer = ensure_signed(origin)?;
        proof {
            self.lemma_wf_facts();
        }
        match self.identities.get(&signer) {
            Some(m) => {
                if !m.contains_key(&prefix) {
                    return Err(DispatchError::Identity(IdentityError::IdentityDoesNotExist));
                }
            },
            None => {
                return Err(DispatchError::Identity(IdentityError::AccountDoesNotExist));
            },
        }
        let mut map = match self.identities.remove(&signer) {
            Some(m) => m,
            None => {
                return Err(DispatchError::Identity(IdentityError::AccountDoesNotExist));
            },
        };
        let identity = match map.remove(&prefix) {
            Some(identity) => identity,
            None => {
                return Err(DispatchError::Identity(IdentityError::IdentityDoesNotExist));
            },
        };
        self.identities.insert(signer, map);
        self.events.push(Event::IdentityUnlinked(signer, prefix, identity));
        proof {
            let old_m = old(self).view().identities[signer];
            assert(self.view().identities =~= old(self).view().identities.insert(signer, old_m.remove(prefix)));
            assert(self.identities.view().dom() =~= self.authorities.view().dom());
            let new_m = self.identities.view()[signer];
            let old_inner = old(self).identities.view()[signer];
            old_inner.lemma_view();
            new_m.lemma_view();
            vstd::set_lib::lemma_len_subset(new_m.view().dom(), old_inner.view().dom());
            Self::lemma_identities_updated(old(self), self, signer);
        }
        Ok(())
    }

    /// Why `callback` is refused, if it is.
    pub open spec fn callback_error(
        &self,
        oracle: &oracle::Pallet,
        balances: &Balances,
        origin: Origin,
        request_id: RequestIdentifier,
        result: bool,
    ) -> Option<DispatchError> {
        match signer_of(origin) {
            None => Some(DispatchError::BadOrigin),
            Some(signer) => if !oracle.view().requests.contains_key(request_id) {
                Some(DispatchError::Identity(IdentityError::InvalidOracleAnswer))
            } else {
                let request = oracle.view().requests[request_id];
                if request.pallet_index != self.cfg().pallet_index {
                    Some(DispatchError::Identity(IdentityError::InvalidOracleAnswer))
                } else if oracle.callback_error(balances, Origin::Root, signer, request_id) is Some {
                    oracle.callback_error(balances, Origin::Root, signer, request_id)
                } else {
                    match LinkIdentityRequest::spec_decode(request.data) {
                        None => Some(DispatchError::Identity(IdentityError::InvalidOracleAnswer)),
                        Some(link) => if !result {
                            Some(DispatchError::Identity(IdentityError::IdentityCheckFailed))
                        } else if !self.view().identities.contains_key(link.requester) {
                            Some(DispatchError::Identity(IdentityError::AccountDoesNotExist))
                        } else if self.view().identities[link.requester].contains_key(link.prefix) {
                            Some(DispatchError::Identity(IdentityError::IdentityAlreadyLinked))
                        } else if self.view().identities[link.requester].len()
                            >= self.cfg().max_linked_identity_types {
                            Some(DispatchError::Identity(IdentityError::MaxLinkedIdentitiesExceeded))
                        } else {
                            None
                        },
                    }
                }
            },
        }
    }

    /// The operator answers a link request: the oracle pays the operator and
    /// drops the request, and when the check passed the identity is linked.
    pub fn callback(
        &mut self,
        oracle: &mut oracle::Pallet,
        balances: &mut Balances,
        origin: Origin,
        request_id: RequestIdentifier,
        result: bool,
    ) -> (r: Result<(), DispatchError>)
        requires
            old(self).wf(),
            old(oracle).wf(),
            old(balances).wf(),
        ensures
            final(self).wf(),
            final(oracle).wf(),
            final(balances).wf(),
            final(self).cfg() == old(self).cfg(),
            final(oracle).cfg() == old(oracle).cfg(),
            match old(self).callback_error(&*old(oracle), &*old(balances), origin, request_id, result) {
                Some(e) => r == Err::<(), DispatchError>(e) && *final(self) == *old(self)
                    && *final(oracle) == *old(oracle) && *final(balances) == *old(balances),
                None => {
                    let signer = signer_of(origin)->0;
                    let request = old(oracle).view().requests[request_id];
                    let link = LinkIdentityRequest::spec_decode(request.data)->0;
                    let m = old(self).view().identities[link.requester];
                    &&& r is Ok
                    &&& final(oracle).view() == old(oracle).after_callback(signer, request_id)
                    &&& final(balances).view() == oracle::Pallet::paid(old(balances).view(), request)
                    &&& final(self).view() == (IdentityState {
                        identities: old(self).view().identities.insert(
                            link.requester,
                            m.insert(link.prefix, link.identity),
                        ),
                        events: old(self).view().events.push(
                            Event::IdentityLinked(link.requester, link.prefix, link.identity),
                        ),
                        ..old(self).view()
                    })
                },
            },
    {
        let signer = ensure_signed(origin)?;
        proof {
            self.lemma_wf_facts();
        }
        let request = match oracle.request(request_id) {
            Some(request) => request,
            None => {
                return Err(DispatchError::Identity(IdentityError::InvalidOracleAnswer));
            },
        };
        if request.pallet_index != self.config.pallet_index {
            return Err(DispatchError::Identity(IdentityError::InvalidOracleAnswer));
        }
        oracle.check_callback(balances, Origin::Root, signer, request_id)?;
        let link = match LinkIdentityRequest::decode(request.data.as_slice()) {
            Some(link) => link,
            None => {
                return Err(DispatchError::Identity(IdentityError::InvalidOracleAnswer));
            },
        };
        if !result {
            return Err(DispatchError::Identity(IdentityError::IdentityCheckFailed));
        }
        let map = match self.identities.get(&link.requester) {
            Some(m) => m,
            None => {
                return Err(DispatchError::Identity(IdentityError::AccountDoesNotExist));
            },
        };
        if map.contains_key(&link.prefix) {
            return Err(DispatchError::Identity(IdentityError::IdentityAlreadyLinked));
        }
        if map.len() >= self.config.max_linked_identity_types as usize {
            return Err(DispatchError::Identity(IdentityError::MaxLinkedIdentitiesExceeded));
        }
        oracle.callback(balances, Origin::Root, signer, request_id)?;
        let mut map = match self.identities.remove(&link.requester) {
            Some(m) => m,
            None => {
                return Err(DispatchError::Identity(IdentityError::AccountDoesNotExist));
            },
        };
        map.insert(link.prefix, link.identity);
        self.identities.insert(link.requester, map);
        self.events.push(Event::IdentityLinked(link.requester, link.prefix, link.identity));
        proof {
            let old_m = old(self).view().identities[link.requester];
            assert(self.view().identities =~= old(self).view().identities.insert(link.requester, old_m.insert(link.prefix, link.identity)));
            assert(self.identities.view().dom() =~= self.authorities.view().dom());
            let new_m = self.identities.view()[link.requester];
            let old_inner = old(self).identities.view()[link.requester];
            old_inner.lemma_view();
            new_m.lemma_view();
            Self::lemma_identities_updated(old(self), self, link.requester);
        }
        Ok(())
    }

    // -------------------------------------------------------------- lemmas

    proof fn lemma_wf_facts(&self)
        requires
            self.wf(),
        ensures
            forall|a: AccountId| #[trigger]
                self.addresses.view().contains_key(a) ==> self.addresses.view()[a].wf()
                    && self.view().addresses[a] == address_map_view(self.addresses.view()[a])
                    && address_map_view(self.addresses.view()[a]).dom() == self.addresses.view()[a].view().dom(),
            forall|a: AccountId| #[trigger]
                self.identities.view().contains_key(a) ==> self.identities.view()[a].wf()
                    && self.view().identities[a] == self.identities.view()[a].view(),
            self.view().addresses.dom() == self.authorities.view().dom(),
            self.view().identities.dom() == self.authorities.view().dom(),
            self.addresses.view().dom() == self.authorities.view().dom(),
            self.identities.view().dom() == self.authorities.view().dom(),
    {
        assert forall|a: AccountId| #[trigger] self.addresses.view().contains_key(a) implies address_map_view(self.addresses.view()[a]).dom() == self.addresses.view()[a].view().dom() by {
            assert(address_map_view(self.addresses.view()[a]).dom() =~= self.addresses.view()[a].view().dom());
        }
        assert(self.view().addresses.dom() =~= self.addresses.view().dom());
        assert(self.view().identities.dom() =~= self.identities.view().dom());
    }

    proof fn lemma_addresses_updated(old_p: &Pallet, new_p: &Pallet, acc: AccountId)
        requires
            old_p.wf(),
            new_p.config == old_p.config,
            new_p.identities == old_p.identities,
            new_p.authorities == old_p.authorities,
            new_p.addresses.wf(),
            old_p.addresses.view().contains_key(acc),
            new_p.addresses.view() =~= old_p.addresses.view().insert(acc, new_p.addresses.view()[acc]),
            new_p.addresses.view()[acc].wf(),
            address_map_view(new_p.addresses.view()[acc]).dom().finite(),
            address_map_view(new_p.addresses.view()[acc]).len() <= old_p.config.max_linked_address_types,
            forall|p: Prefix| #[trigger]
                address_map_view(new_p.addresses.view()[acc]).contains_key(p) ==> address_map_view(new_p.addresses.view()[acc])[p].len()
                    <= old_p.config.max_linked_addresses && address_map_view(new_p.addresses.view()[acc])[p].no_duplicates(),
        ensures
            new_p.wf(),
    {
        old_p.lemma_wf_facts();
        assert(new_p.addresses.view().dom() =~= new_p.authorities.view().dom());
        assert forall|a: AccountId| #[trigger] new_p.addresses.view().contains_key(a) implies new_p.addresses.view()[a].wf() by {
            if a != acc {
                assert(new_p.addresses.view()[a] == old_p.addresses.view()[a]);
            }
        }
        assert forall|a: AccountId| #[trigger] new_p.view().addresses.contains_key(a) implies new_p.view().addresses[a].dom().finite()
            && new_p.view().addresses[a].len() <= new_p.config.max_linked_address_types
            && forall|p: Prefix| #[trigger] new_p.view().addresses[a].contains_key(p) ==> new_p.view().addresses[a][p].len()
                <= new_p.config.max_linked_addresses && new_p.view().addresses[a][p].no_duplicates() by {
            if a != acc {
                assert(new_p.view().addresses[a] == old_p.view().addresses[a]);
            } else {
                assert(new_p.view().addresses[a] == address_map_view(new_p.addresses.view()[acc]));
            }
        }
        assert(new_p.view().identities == old_p.view().identities);
    }

    proof fn lemma_identities_updated(old_p: &Pallet, new_p: &Pallet, acc: AccountId)
        requires
            old_p.wf(),
            new_p.config == old_p.config,
            new_p.addresses == old_p.addresses,
            new_p.authorities == old_p.authorities,
            new_p.identities.wf(),
            old_p.identities.view().contains_key(acc),
            new_p.identities.view() =~= old_p.identities.view().insert(acc, new_p.identities.view()[acc]),
            new_p.identities.view()[acc].wf(),
            new_p.identities.view()[acc].view().dom().finite(),
            new_p.identities.view()[acc].view().len() <= old_p.config.max_linked_identity_types,
        ensures
            new_p.wf(),
    {
        old_p.lemma_wf_facts();
        assert(new_p.identities.view().dom() =~= new_p.authorities.view().dom());
        assert forall|a: AccountId| #[trigger] new_p.identities.view().contains_key(a) implies new_p.identities.view()[a].wf() by {
            if a != acc {
                assert(new_p.identities.view()[a] == old_p.identities.view()[a]);
            }
        }
        assert forall|a: AccountId| #[trigger] new_p.view().identities.contains_key(a) implies new_p.view().identities[a].dom().finite()
            && new_p.view().identities[a].len() <= new_p.config.max_linked_identity_types by {
            if a != acc {
                assert(new_p.view().identities[a] == old_p.view().identities[a]);
            }
        }
        assert(new_p.view().addresses == old_p.view().addresses);
    }

    // -------------------------------------------------------------- getters

    pub fn addresses(&self, account: AccountId) -> (r: Option<&AddressMap>)
        requires
            self.wf(),
        ensures
            match r {
                Some(m) => self.view().addresses.contains_key(account) && address_map_view(*m)
                    == self.view().addresses[account] && m.wf(),
                None => !self.view().addresses.contains_key(account),
            },
    {
        proof {
            self.lemma_wf_facts();
        }
        self.addresses.get(&account)
    }

    pub fn identities(&self, account: AccountId) -> (r: Option<&IdentityMap>)
        requires
            self.wf(),
        ensures
            match r {
                Some(m) => self.view().identities.contains_key(account) && m.view()
                    == self.view().identities[account] && m.wf(),
                None => !self.view().identities.contains_key(account),
            },
    {
        proof {
            self.lemma_wf_facts();
        }
        self.identities.get(&account)
    }

    pub fn authorities(&self, account: AccountId) -> (r: Option<[Authority; 2]>)
        requires
            self.wf(),
        ensures
            match r {
                Some(a) => self.view().authorities.contains_key(account) && a
                    == self.view().authorities[account],
                None => !self.view().authorities.contains_key(account),
            },
    {
        match self.authorities.get(&account) {
            Some(a) => Some(*a),
            None => None,
        }
    }

    /// The events deposited so far, oldest first.
    pub fn events(&self) -> (v: &Vec<Event>)
        ensures
            v@ == self.view().events,
    {
        &self.events
    }

    /// The last event deposited, if any.
    pub fn last_event(&self) -> (e: Option<Event>)
        ensures
            self.view().events.len() == 0 ==> e is None,
            self.view().events.len() > 0 ==> e == Some(self.view().events.last()),
    {
        if self.events.len() == 0 {
            None
        } else {
            Some(self.events[self.events.len() - 1])
        }
    }
}

impl IdentityState {
    /// The bounds that the maps keep: per account at most the allowed number
    /// of address prefixes and identities, per prefix at most the allowed
    /// number of addresses, none of them twice.
    pub open spec fn wf_maps(self, config: IdentityConfig) -> bool {
        &&& forall|a: AccountId| #[trigger]
            self.addresses.contains_key(a) ==> self.addresses[a].dom().finite()
                && self.addresses[a].len() <= config.max_linked_address_types
                && forall|p: Prefix| #[trigger]
                self.addresses[a].contains_key(p) ==> self.addresses[a][p].len()
                    <= config.max_linked_addresses && self.addresses[a][p].no_duplicates()
        &&& forall|a: AccountId| #[trigger]
            self.identities.contains_key(a) ==> self.identities[a].dom().finite()
                && self.identities[a].len() <= config.max_linked_identity_types
    }
}

/// Index of `x` in `v`, if it occurs.
fn position_of(v: &Vec<AccountId>, x: AccountId) -> (r: Option<usize>)
    ensures
        match r {
            Some(i) => i < v@.len() && v@[i as int] == x && forall|j: int| 0 <= j < i ==> v@[j] != x,
            None => !v@.contains(x),
        },
{
    let mut i: usize = 0;
    while i < v.len()
        invariant
            i <= v@.len(),
            forall|j: int| 0 <= j < i ==> v@[j] != x,
        decreases v@.len() - i,
    {
        if v[i] == x {
            return Some(i);
        }
        i = i + 1;
    }
    None
}

/// Whether `x` occurs in `v`.
fn contains_account(v: &Vec<AccountId>, x: AccountId) -> (b: bool)
    ensures
        b == v@.contains(x),
{
    position_of(v, x).is_some()
}

proof fn lemma_remove_first(s: Seq<AccountId>, x: AccountId, i: int)
    requires
        0 <= i < s.len(),
        s[i] == x,
        forall|j: int| 0 <= j < i ==> s[j] != x,
    ensures
        s.remove_value(x) == s.remove(i),
{
    s.index_of_first_ensures(x);
    let r = s.index_of_first(x);
    if r != Some(i) {
        let k = r->0;
        assert(k < i || k > i);
    }
}


// ---------------------------------------------------------------- laws

/// The linked addresses and identities stay within their bounds: per
/// account at most the allowed number of address prefixes and of
/// identities, per prefix at most the allowed number of addresses, none
/// of them twice.
pub proof fn law_links_bounded(p: &Pallet)
    requires
        p.wf(),
    ensures
        p.view().wf_maps(p.cfg()),
{
}

/// Deregistering undoes registering: the maps of the other accounts are as
/// they were before.
pub proof fn law_deregister_undoes_register(p: &Pallet, signer: AccountId)
    requires
        p.wf(),
        !p.view().authorities.contains_key(signer),
    ensures
        p.view().addresses.insert(signer, Map::empty()).remove(signer) == p.view().addresses,
        p.view().identities.insert(signer, Map::empty()).remove(signer) == p.view().identities,
{
    p.lemma_wf_facts();
    assert(p.view().addresses.insert(signer, Map::empty()).remove(signer) =~= p.view().addresses);
    assert(p.view().identities.insert(signer, Map::empty()).remove(signer) =~= p.view().identities);
}

/// Unlinking an address undoes linking it under a prefix that already held
/// addresses.
pub proof fn law_unlink_undoes_link(m: Map<Prefix, Seq<AccountId>>, prefix: Prefix, address: AccountId)
    requires
        m.contains_key(prefix),
        !m[prefix].contains(address),
    ensures
        ({
            let l = Pallet::linked(m, prefix, address);
            l.insert(prefix, l[prefix].remove_value(address)) == m
        }),
{
    let s = m[prefix];
    let t = s.push(address);
    t.index_of_first_ensures(address);
    match t.index_of_first(address) {
        Some(k) => {
            if k != s.len() {
                assert(t[k] == s[k]);
            }
            assert(t.remove(k) =~= s);
        },
        None => {
            assert(t[s.len() as int] == address);
        },
    }
    assert(Pallet::linked(m, prefix, address).insert(prefix, t.remove_value(address)) =~= m);
}

/// The request that `link_identity` puts before the oracle carries the
/// identity pallet's index and decodes, when the answer arrives, to the
/// link that was asked for.
pub proof fn law_link_request_reaches_callback(
    oracle_before: &oracle::Pallet,
    oracle_after: &oracle::Pallet,
    now: BlockNumber,
    pallet_index: u32,
    link: LinkIdentityRequest,
)
    requires
        oracle_after.view() == oracle_before.after_request(
            link.requester,
            now,
            pallet_index,
            link.spec_encode(),
            oracle_before.cfg().minimum_fee,
        ),
    ensures
        ({
            let request = oracle_after.view().requests[oracle_before.view().next_request_identifier];
            &&& oracle_after.view().requests.contains_key(oracle_before.view().next_request_identifier)
            &&& request.pallet_index == pallet_index
            &&& request.requester == link.requester
            &&& LinkIdentityRequest::spec_decode(request.data) == Some(link)
        }),
{
    link.lemma_roundtrip();
}


/// An account registers once: a signed account is refused exactly when it
/// is already registered.
pub proof fn law_register_once(p: &Pallet, who: AccountId)
    ensures
        p.register_error(Origin::Signed(who)) is Some <==> p.view().authorities.contains_key(who),
{
}

/// An authority never fills both slots of an account: writing it into one
/// slot is refused exactly when the other slot already holds it, and
/// otherwise accepted for a registered account.
pub proof fn law_authority_in_one_slot(p: &Pallet, who: AccountId, authority: Authority, index: bool)
    requires
        p.view().authorities.contains_key(who),
    ensures
        ({
            let other = p.view().authorities[who]@[if index { 0int } else { 1int }];
            &&& other == authority ==> p.authorize_error(Origin::Signed(who), authority, index) == Some(
                DispatchError::Identity(IdentityError::AlreadyAuthorized),
            )
            &&& other != authority ==> p.authorize_error(Origin::Signed(who), authority, index) is None
        }),
{
}

/// An address is linked to a registered primary account only with one of
/// the primary's authorities, and only once under a prefix.
pub proof fn law_links_need_authority(
    p: &Pallet,
    signer: AccountId,
    primary: AccountId,
    prefix: Prefix,
    authority: Authority,
)
    requires
        p.view().authorities.contains_key(primary),
    ensures
        p.view().authorities[primary][0] != authority && p.view().authorities[primary][1] != authority
            ==> p.link_address_error(Origin::Signed(signer), primary, prefix, Some(authority)) == Some(
            DispatchError::Identity(IdentityError::UnknownAuthority),
        ),
        p.link_address_error(Origin::Signed(signer), primary, prefix, None) is Some,
{
    let a = p.view().authorities[primary];
    if a[0] != authority && a[1] != authority {
        assert(!a@.contains(authority)) by {
            if a@.contains(authority) {
                let j = choose|j: int| 0 <= j < a@.len() && a@[j] == authority;
                assert(a@.len() == 2);
            }
        }
    }
}
} // verus!
