//! An optimistic off-chain settlement engine.
//!
//! Participants deposit collateral, the validator proposes value-conserving
//! settlements, the judge may veto a settlement before its finality time, and
//! anyone may execute the settlements whose finality time has passed.
//! Withdrawals are only allowed up to the amount that stays available even if
//! every pending settlement the participant pays into is executed.

pub mod types;
pub mod amounts;
pub mod balance_sheet;
pub mod engine;
pub mod state;
pub mod laws;

pub use balance_sheet::BalanceSheet;
pub use state::State;
pub use types::{
    AccountAddress, Address, AddressAmount, Amount, ContractAddress, ContractConfig, Duration,
    InitError, Payout, ReceiveError, Settlement, SettlementID, Timestamp, Transfer, TransferError,
};
