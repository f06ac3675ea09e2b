//! Identifiers of the well-known Solana clusters.

use vstd::prelude::*;

verus! {

/// ID of a Solana chain.
#[derive(Clone, Copy, Debug)]
pub enum ChainID {
    /// Solana mainnet.
    MainnetBeta,
    /// Solana testnet.
    Testnet,
    /// Solana devnet.
    Devnet,
}

impl ChainID {
    /// The number under which a cluster appears in the `chainId` field of a token.
    pub open spec fn spec_id(self) -> u32 {
        match self {
            ChainID::MainnetBeta => 101,
            ChainID::Testnet => 102,
            ChainID::Devnet => 103,
        }
    }

    /// The cluster that a chain number names, if it names one.
    pub open spec fn spec_from_id(id: u32) -> Option<ChainID> {
        if id == 101 {
            Some(ChainID::MainnetBeta)
        } else if id == 102 {
            Some(ChainID::Testnet)
        } else if id == 103 {
            Some(ChainID::Devnet)
        } else {
            None
        }
    }

    /// Returns the chain number of this cluster.
    pub fn id(self) -> (n: u32)
        ensures
            n == self.spec_id(),
    {
        match self {
            ChainID::MainnetBeta => 101,
            ChainID::Testnet => 102,
            ChainID::Devnet => 103,
        }
    }

    /// Returns the cluster with the given chain number, or `None` for any other number.
    pub fn from_id(id: u32) -> (c: Option<ChainID>)
        ensures
            c == Self::spec_from_id(id),
    {
        if id == 101 {
            Some(ChainID::MainnetBeta)
        } else if id == 102 {
            Some(ChainID::Testnet)
        } else if id == 103 {
            Some(ChainID::Devnet)
        } else {
            None
        }
    }
}

/// Every cluster is found again from its chain number.
pub proof fn lemma_chain_id_round_trip(c: ChainID)
    ensures
        ChainID::spec_from_id(c.spec_id()) == Some(c),
{
}

} // verus!
