//! Filters that gate a role: an allowlist committed to by a Merkle root, or
//! membership in another guild or role.
use vstd::prelude::*;
use crate::requests::{GuildName, RoleName};

verus! {

/// A guild, or one of its roles, whose members pass a filter.
#[derive(Clone, Copy, Debug, PartialEq, Eq)]
pub struct Guild {
    pub name: GuildName,
    pub role: Option<RoleName>,
}

/// How a filter combines with the requirements of a role.
#[derive(Clone, Copy, Debug, PartialEq, Eq, Structural)]
pub enum Logic {
    And,
    Or,
}

/// The on-chain part of a role's access rules.
#[derive(Clone, Copy, Debug, PartialEq, Eq)]
pub enum Filter {
    /// Merkle root of the allowlist, the logic, and the number of leaves.
    Allowlist(crate::hash::Hash, Logic, u32),
    Guild(Guild, Logic),
}

} // verus!
