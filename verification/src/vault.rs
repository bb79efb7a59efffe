//! Vault custody: the 2x2 (asset x direction) dispatch that decides which
//! custody transfer a swap initiation performs. The ledger computes a
//! [`TransferPlan`]; the host resolves each party to its account and hands
//! the plan to the external token-transfer primitive.

use vstd::prelude::*;
use crate::types::{MizumiStable, TransactionKind};

verus! {

/// A party to a custody transfer, named abstractly. The host maps each party
/// to the concrete token account it stands for.
#[derive(Clone, Copy, Debug, PartialEq, Eq, Structural)]
pub enum TransferParty {
    /// The custody vault holding the given stablecoin. As the authorizer it
    /// stands for the vault's own self-derived signing authority.
    Vault(MizumiStable),
    /// The user's holding account for the given stablecoin.
    UserHolder(MizumiStable),
    /// The user's own identity key, signing for transfers out of the user's
    /// holding account.
    UserAuthority,
}

/// A custody transfer, fully decided: who pays, who receives, who signs,
/// and how much.
#[derive(Clone, Copy, Debug, PartialEq, Eq, Structural)]
pub struct TransferPlan {
    pub from: TransferParty,
    pub to: TransferParty,
    pub authorizer: TransferParty,
    pub amount: u64,
}

/// The transfer the `(asset, direction)` cell of the dispatch matrix calls
/// for: an onramp releases `amount` from the asset's vault to the user's
/// holder under the vault's own authority; an offramp moves `amount` from
/// the user's holder into the vault under the user's authority.
pub open spec fn spec_transfer_plan(
    token: MizumiStable,
    tx_kind: TransactionKind,
    amount: u64,
) -> TransferPlan {
    match tx_kind {
        TransactionKind::Onramp => TransferPlan {
            from: TransferParty::Vault(token),
            to: TransferParty::UserHolder(token),
            authorizer: TransferParty::Vault(token),
            amount,
        },
        TransactionKind::Offramp => TransferPlan {
            from: TransferParty::UserHolder(token),
            to: TransferParty::Vault(token),
            authorizer: TransferParty::UserAuthority,
            amount,
        },
    }
}

/// Decide the custody move for one swap initiation: a pure lookup on
/// `(asset, direction)`.
pub fn move_funds(token: MizumiStable, tx_kind: TransactionKind, amount: u64) -> (p: TransferPlan)
    ensures
        p == spec_transfer_plan(token, tx_kind, amount),
{
    match tx_kind {
        TransactionKind::Onramp => TransferPlan {
            from: TransferParty::Vault(token),
            to: TransferParty::UserHolder(token),
            authorizer: TransferParty::Vault(token),
            amount,
        },
        TransactionKind::Offramp => TransferPlan {
            from: TransferParty::UserHolder(token),
            to: TransferParty::Vault(token),
            authorizer: TransferParty::UserAuthority,
            amount,
        },
    }
}

} // verus!
