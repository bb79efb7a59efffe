//! Core data types of the settlement ledger: the supported assets and fiat
//! currencies, the direction of a swap, the per-user and per-swap records,
//! and the error taxonomy.

use vstd::prelude::*;

verus! {

/// The two stablecoin assets the ledger custodies, one vault each.
#[derive(Clone, Copy, Debug, PartialEq, Eq, Structural)]
pub enum MizumiStable {
    USDC,
    USDT,
}

/// The supported fiat currencies on the off-system side of a swap.
#[derive(Clone, Copy, Debug, PartialEq, Eq, Structural)]
pub enum MizumiFiat {
    GHS,
    USD,
}

/// The direction of a swap: `Onramp` releases custody funds to the user,
/// `Offramp` deposits the user's funds into custody.
#[derive(Clone, Copy, Debug, PartialEq, Eq, Structural)]
pub enum TransactionKind {
    Onramp,
    Offramp,
}

/// Lifecycle stage of a swap record: created empty, then populated by
/// `initiate_swap`, then closed by `complete_swap`.
#[derive(Clone, Copy, Debug, PartialEq, Eq, Structural)]
pub enum SwapStage {
    Created,
    Initiated,
    Completed,
}

/// Why an operation was rejected. Every rejection leaves the ledger unchanged.
#[derive(Clone, Copy, Debug, PartialEq, Eq, Structural)]
pub enum LedgerError {
    /// The caller does not hold the administrative authority.
    Unauthorized,
    /// A record already exists at the targeted address.
    AlreadyExists,
    /// The first-swap path was taken for a user whose swap count is not zero.
    NotFirstSwap,
    /// The targeted record does not exist, or is not at the stage the
    /// operation needs.
    PrecursorMissing,
    /// The external token-transfer primitive rejected the custody move.
    TransferFailed,
}

/// One record per registered user.
#[derive(Clone, Debug, PartialEq)]
pub struct UserAccount {
    /// Identity key of the user; immutable after creation.
    pub authority: String,
    /// Number of swap records ever created for this user.
    pub swaps_count: u64,
    /// Sum of `settled_amount` over every `complete_swap` call for this user.
    pub total_swaps_value: u64,
}

/// One record per `(authority, swap_id)` pair.
#[derive(Clone, Debug, PartialEq)]
pub struct SwapAccount {
    /// Identity key of the initiating user.
    pub authority: String,
    /// The stablecoin leg of the swap.
    pub token: MizumiStable,
    /// True once settlement has been recorded with `settled = true`.
    pub settled: bool,
    /// Amount requested at initiation.
    pub amount_in: u64,
    /// The fiat leg of the swap.
    pub fiat: MizumiFiat,
    /// Direction of the swap.
    pub tx_kind: TransactionKind,
    /// Amount recorded at settlement; zero until then.
    pub settled_amount: u64,
    /// Host clock value at initiation.
    pub created_ts: i64,
    /// Host clock value at settlement.
    pub settled_ts: i64,
    /// Lifecycle stage of this record.
    pub stage: SwapStage,
}

/// The terms of a swap bundled as one value.
#[derive(Clone, Copy, Debug, PartialEq, Eq, Structural)]
pub struct SwapData {
    pub token: MizumiStable,
    pub amount: u64,
    pub fiat: MizumiFiat,
    pub tx_kind: TransactionKind,
}

/// Mathematical model of a [`UserAccount`].
#[verifier::ext_equal]
pub struct UserView {
    pub authority: Seq<char>,
    pub swaps_count: u64,
    pub total_swaps_value: u64,
}

/// Mathematical model of a [`SwapAccount`].
#[verifier::ext_equal]
pub struct SwapAccountView {
    pub authority: Seq<char>,
    pub token: MizumiStable,
    pub settled: bool,
    pub amount_in: u64,
    pub fiat: MizumiFiat,
    pub tx_kind: TransactionKind,
    pub settled_amount: u64,
    pub created_ts: i64,
    pub settled_ts: i64,
    pub stage: SwapStage,
}

impl View for UserAccount {
    type V = UserView;

    open spec fn view(&self) -> UserView {
        UserView {
            authority: self.authority@,
            swaps_count: self.swaps_count,
            total_swaps_value: self.total_swaps_value,
        }
    }
}

impl View for SwapAccount {
    type V = SwapAccountView;

    open spec fn view(&self) -> SwapAccountView {
        SwapAccountView {
            authority: self.authority@,
            token: self.token,
            settled: self.settled,
            amount_in: self.amount_in,
            fiat: self.fiat,
            tx_kind: self.tx_kind,
            settled_amount: self.settled_amount,
            created_ts: self.created_ts,
            settled_ts: self.settled_ts,
            stage: self.stage,
        }
    }
}

} // verus!
