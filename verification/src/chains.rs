//! The EVM chains that requirements can refer to.
use vstd::prelude::*;

verus! {

/// An EVM chain.
#[derive(Clone, Copy, Debug, PartialEq, Eq, Structural)]
pub enum EvmChain {
    Ethereum,
    Bsc,
    Gnosis,
    Polygon,
}

/// The chain id of an EVM chain.
pub open spec fn evm_chain_id(c: EvmChain) -> u64 {
    match c {
        EvmChain::Ethereum => 1,
        EvmChain::Bsc => 56,
        EvmChain::Gnosis => 100,
        EvmChain::Polygon => 137,
    }
}

impl EvmChain {
    /// The chain id: 1 for Ethereum, 56 for BSC, 100 for Gnosis and 137 for
    /// Polygon.
    pub fn chain_id(&self) -> (id: u64)
        ensures
            id == evm_chain_id(*self),
    {
        match self {
            EvmChain::Ethereum => 1,
            EvmChain::Bsc => 56,
            EvmChain::Gnosis => 100,
            EvmChain::Polygon => 137,
        }
    }
}

} // verus!
