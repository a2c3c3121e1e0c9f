//! The reservable currency that the oracle pallet charges its fees in: each
//! account has a free and a reserved balance.
use vstd::prelude::*;
use crate::collections::StorageMap;
use crate::dispatch::{AccountId, Balance, BalancesError, DispatchError};

verus! {

/// Free and reserved balance of an account.
#[derive(PartialEq, Eq, Structural, Clone, Copy, Debug)]
pub struct AccountData {
    pub free: Balance,
    pub reserved: Balance,
}

/// The balances of all accounts; an account that was never credited has
/// nothing.
pub struct Balances {
    accounts: StorageMap<AccountId, AccountData>,
}

/// The account data of `who` in `m`, zero when absent.
pub open spec fn account_of(m: Map<AccountId, AccountData>, who: AccountId) -> AccountData {
    if m.contains_key(who) {
        m[who]
    } else {
        AccountData { free: 0, reserved: 0 }
    }
}

impl Balances {
    pub closed spec fn view(&self) -> Map<AccountId, AccountData> {
        self.accounts.view()
    }

    /// The accounts are well formed and no account holds more in total than
    /// the currency can represent.
    pub closed spec fn wf(&self) -> bool {
        &&& self.accounts.wf()
        &&& forall|who: AccountId| #[trigger]
            self.accounts.view().contains_key(who) ==> self.accounts.view()[who].free
                + self.accounts.view()[who].reserved <= Balance::MAX
    }

    pub open spec fn account(&self, who: AccountId) -> AccountData {
        account_of(self.view(), who)
    }

    pub open spec fn spec_free(&self, who: AccountId) -> Balance {
        self.account(who).free
    }

    pub open spec fn spec_reserved(&self, who: AccountId) -> Balance {
        self.account(who).reserved
    }

    /// No account holds more in total than the currency can represent, so
    /// moving value between its free and reserved balance never wraps.
    pub proof fn lemma_account_fits(&self, who: AccountId)
        requires
            self.wf(),
        ensures
            self.spec_free(who) + self.spec_reserved(who) <= Balance::MAX,
    {
    }

    pub fn new() -> (b: Self)
        ensures
            b.wf(),
            b.view() == Map::<AccountId, AccountData>::empty(),
    {
        Balances { accounts: StorageMap::new() }
    }

    fn get(&self, who: AccountId) -> (d: AccountData)
        requires
            self.wf(),
        ensures
            d == self.account(who),
            d.free + d.reserved <= Balance::MAX,
    {
        match self.accounts.get(&who) {
            Some(d) => *d,
            None => AccountData { free: 0, reserved: 0 },
        }
    }

    /// Sets the free balance of `who` (genesis endowment), keeping what is
    /// reserved.
    pub fn set_free_balance(&mut self, who: AccountId, free: Balance)
        requires
            old(self).wf(),
            free + old(self).spec_reserved(who) <= Balance::MAX,
        ensures
            final(self).wf(),
            final(self).view() == old(self).view().insert(
                who,
                AccountData { free, reserved: old(self).spec_reserved(who) },
            ),
    {
        let d = self.get(who);
        self.accounts.insert(who, AccountData { free, reserved: d.reserved });
        proof {
            self.accounts.lemma_view();
        }
    }

    pub fn free_balance(&self, who: AccountId) -> (b: Balance)
        requires
            self.wf(),
        ensures
            b == self.spec_free(who),
    {
        self.get(who).free
    }

    pub fn reserved_balance(&self, who: AccountId) -> (b: Balance)
        requires
            self.wf(),
        ensures
            b == self.spec_reserved(who),
    {
        self.get(who).reserved
    }

    /// Moves `value` from the free to the reserved balance of `who`; refused
    /// with `InsufficientBalance` when the free balance is smaller.
    pub fn reserve(&mut self, who: AccountId, value: Balance) -> (r: Result<(), DispatchError>)
        requires
            old(self).wf(),
        ensures
            final(self).wf(),
            old(self).spec_free(who) < value ==> r == Err::<(), DispatchError>(
                DispatchError::Balances(BalancesError::InsufficientBalance),
            ) && *final(self) == *old(self),
            old(self).spec_free(who) >= value ==> r is Ok && final(self).view() == old(
                self,
            ).view().insert(
                who,
                AccountData {
                    free: (old(self).spec_free(who) - value) as Balance,
                    reserved: (old(self).spec_reserved(who) + value) as Balance,
                },
            ) && final(self).spec_free(who) == old(self).spec_free(who) - value
                && final(self).spec_reserved(who) == old(self).spec_reserved(who) + value,
    {
        let d = self.get(who);
        if d.free < value {
            return Err(DispatchError::Balances(BalancesError::InsufficientBalance));
        }
        proof {
            self.accounts.lemma_view();
        }
        self.accounts.insert(who, AccountData { free: d.free - value, reserved: d.reserved + value });
        proof {
            self.accounts.lemma_view();
        }
        Ok(())
    }

    /// Moves up to `value` from the reserved balance of `slashed` to the free
    /// balance of `beneficiary` and returns the part of `value` that could
    /// not be moved. Refused with `Overflow` when the beneficiary's balance
    /// would exceed what the currency can hold.
    pub fn repatriate_reserved(
        &mut self,
        slashed: AccountId,
        beneficiary: AccountId,
        value: Balance,
    ) -> (r: Result<Balance, DispatchError>)
        requires
            old(self).wf(),
        ensures
            final(self).wf(),
            ({
                let moved = if value <= old(self).spec_reserved(slashed) {
                    value
                } else {
                    old(self).spec_reserved(slashed)
                };
                let s = old(self).account(slashed);
                let b = old(self).account(beneficiary);
                if slashed == beneficiary {
                    r == Ok::<Balance, DispatchError>((value - moved) as Balance)
                        && final(self).view() == old(self).view().insert(
                        slashed,
                        AccountData {
                            free: (s.free + moved) as Balance,
                            reserved: (s.reserved - moved) as Balance,
                        },
                    )
                } else if b.free + b.reserved + moved > Balance::MAX {
                    r == Err::<Balance, DispatchError>(
                        DispatchError::Balances(BalancesError::Overflow),
                    ) && *final(self) == *old(self)
                } else {
                    r == Ok::<Balance, DispatchError>((value - moved) as Balance)
                        && final(self).view() == old(self).view().insert(
                        slashed,
                        AccountData { free: s.free, reserved: (s.reserved - moved) as Balance },
                    ).insert(beneficiary, AccountData { free: (b.free + moved) as Balance, reserved: b.reserved })
                }
            }),
    {
        proof {
            self.accounts.lemma_view();
        }
        let s = self.get(slashed);
        let moved = if value <= s.reserved {
            value
        } else {
            s.reserved
        };
        if slashed == beneficiary {
            self.accounts.insert(slashed, AccountData { free: s.free + moved, reserved: s.reserved - moved });
            proof {
                self.accounts.lemma_view();
            }
            return Ok(value - moved);
        }
        let b = self.get(beneficiary);
        if b.reserved > Balance::MAX - b.free || moved > Balance::MAX - b.free - b.reserved {
            return Err(DispatchError::Balances(BalancesError::Overflow));
        }
        self.accounts.insert(slashed, AccountData { free: s.free, reserved: s.reserved - moved });
        self.accounts.insert(beneficiary, AccountData { free: b.free + moved, reserved: b.reserved });
        proof {
            self.accounts.lemma_view();
        }
        Ok(value - moved)
    }
}

} // verus!
