//! The data model: identities, amounts, transfers, settlements, errors.
use vstd::prelude::*;

verus! {

/// An amount of the ledger's currency, in its smallest unit.
pub type Amount = u64;

/// A point in time, in milliseconds.
pub type Timestamp = u64;

/// A length of time, in milliseconds.
pub type Duration = u64;

/// Unique identifier of a settlement.
pub type SettlementID = u64;

/// The identity of an individual account: a fixed-length byte string.
#[derive(Clone, Copy, Debug)]
pub struct AccountAddress(pub [u8; 32]);

impl View for AccountAddress {
    type V = Seq<u8>;

    open spec fn view(&self) -> Seq<u8> {
        self.0@
    }
}

impl PartialEq for AccountAddress {
    fn eq(&self, other: &AccountAddress) -> (r: bool)
        ensures
            r == (self@ == other@),
    {
        let mut i: usize = 0;
        while i < 32
            invariant
                0 <= i <= 32,
                self@.len() == 32,
                other@.len() == 32,
                forall|k: int| 0 <= k < i ==> self@[k] == other@[k],
            decreases 32 - i,
        {
            if self.0[i] != other.0[i] {
                return false;
            }
            i = i + 1;
        }
        assert(self@ =~= other@);
        true
    }
}

impl vstd::std_specs::cmp::PartialEqSpecImpl for AccountAddress {
    open spec fn obeys_eq_spec() -> bool {
        true
    }

    open spec fn eq_spec(&self, other: &AccountAddress) -> bool {
        self@ == other@
    }
}

impl Eq for AccountAddress {}

/// The address of a smart contract instance.
#[derive(Clone, Copy, Debug, PartialEq, Eq, Structural)]
pub struct ContractAddress {
    pub index: u64,
    pub subindex: u64,
}

/// The caller of an operation: an individual account or a contract.
#[derive(Clone, Copy, Debug)]
pub enum Address {
    Account(AccountAddress),
    Contract(ContractAddress),
}

impl Address {
    /// The caller as an individual account; a contract is refused.
    pub fn account(&self) -> (r: Result<AccountAddress, ReceiveError>)
        ensures
            match *self {
                Address::Account(a) => r == Ok::<AccountAddress, ReceiveError>(a),
                Address::Contract(_) => r == Err::<AccountAddress, ReceiveError>(
                    ReceiveError::ContractSender,
                ),
            },
    {
        match self {
            Address::Account(a) => Ok(*a),
            Address::Contract(_) => Err(ReceiveError::ContractSender),
        }
    }

    /// Whether the caller is the given individual account.
    pub fn matches_account(&self, account: &AccountAddress) -> (r: bool)
        ensures
            r == (self is Account && self->Account_0@ == account@),
    {
        match self {
            Address::Account(a) => *a == *account,
            Address::Contract(_) => false,
        }
    }
}

/// A sender or receiver together with the amount it sends or receives.
#[derive(Clone, Copy, Debug)]
pub struct AddressAmount {
    pub address: AccountAddress,
    pub amount: Amount,
}

/// A multi-input, multi-output transfer. The metadata is not interpreted by
/// the engine; it is evidence for the judge.
#[derive(Clone, Debug)]
pub struct Transfer {
    pub send_transfers: Vec<AddressAmount>,
    pub receive_transfers: Vec<AddressAmount>,
    pub meta_data: Vec<u8>,
}

/// A proposed update of the balance sheet, executable from its finality time on.
#[derive(Clone, Debug)]
pub struct Settlement {
    pub id: SettlementID,
    pub transfer: Transfer,
    pub finality_time: Timestamp,
}

/// The parameters fixed when the engine is created.
#[derive(Clone, Copy, Debug)]
pub struct ContractConfig {
    /// The only identity allowed to propose settlements.
    pub validator: AccountAddress,
    /// The only identity allowed to veto settlements.
    pub judge: AccountAddress,
    /// Time from the proposal of a settlement until it becomes final.
    pub time_to_finality: Duration,
    /// The largest number of settlements that may be pending at once.
    pub settlement_limit: u32,
}

/// The errors of creating the engine.
#[derive(Clone, Copy, Debug, PartialEq, Eq, Structural)]
pub enum InitError {
    /// The parameter could not be parsed.
    ParseParams,
}

/// The errors of the engine's operations.
#[derive(Clone, Copy, Debug, PartialEq, Eq, Structural)]
pub enum ReceiveError {
    /// The parameter could not be parsed.
    ParseParams,
    /// The caller is a contract, where an individual account is required.
    ContractSender,
    /// Not enough funds.
    InsufficientFunds,
    /// The transfer does not conserve value.
    InvalidTransfer,
    /// The finality time is not representable.
    TimeOverflow,
    /// The settlement identifiers are exhausted.
    CounterOverflow,
    /// The caller is not the validator.
    NotAValidator,
    /// The caller is not the judge.
    NotAJudge,
    /// A withdrawal of nothing was requested.
    ZeroWithdrawal,
    /// The settlement queue is full.
    SettlementQueueFull,
    /// The payout went to an account that does not exist.
    InvokeTransferMissingAccount,
    /// The payout exceeded what the engine could transfer.
    InvokeTransferInsufficientFunds,
}

/// The failures of the ledger's payment primitive.
#[derive(Clone, Copy, Debug, PartialEq, Eq, Structural)]
pub enum TransferError {
    /// The payout exceeded what the engine could transfer.
    AmountTooLarge,
    /// The receiving account does not exist.
    MissingAccount,
}

impl From<TransferError> for ReceiveError {
    fn from(te: TransferError) -> (r: ReceiveError)
        ensures
            r == transfer_error_to_receive_error(te),
    {
        match te {
            TransferError::AmountTooLarge => ReceiveError::InvokeTransferInsufficientFunds,
            TransferError::MissingAccount => ReceiveError::InvokeTransferMissingAccount,
        }
    }
}

impl vstd::std_specs::convert::FromSpecImpl<TransferError> for ReceiveError {
    open spec fn obeys_from_spec() -> bool {
        true
    }

    open spec fn from_spec(te: TransferError) -> ReceiveError {
        transfer_error_to_receive_error(te)
    }
}

/// How a failure of the payment primitive is reported by a withdrawal.
pub open spec fn transfer_error_to_receive_error(te: TransferError) -> ReceiveError {
    match te {
        TransferError::AmountTooLarge => ReceiveError::InvokeTransferInsufficientFunds,
        TransferError::MissingAccount => ReceiveError::InvokeTransferMissingAccount,
    }
}

/// A payment that a successful withdrawal asks the ledger to make.
#[derive(Clone, Copy, Debug)]
pub struct Payout {
    pub receiver: AccountAddress,
    pub amount: Amount,
}

} // verus!
