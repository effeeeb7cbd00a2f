//! The error taxonomy of the marketplace.

use vstd::prelude::*;

verus! {

/// Why a state transition or an oracle run was refused.
#[derive(PartialEq, Eq, Structural, Clone, Copy, Debug)]
pub enum Error {
    /// A contract already sits under the reservation id about to be issued.
    ReservationExists,
    /// A contract already exists for this reservation.
    ContractExists,
    /// No contract exists for this reservation.
    ContractNotExists,
    /// The contract has not been accepted by its farmer.
    ContractNotAccepted,
    /// The contract has not been marked deployed by its node.
    ContractNotDeployed,
    /// The contract was already cancelled; it cannot be funded or deployed.
    ContractCancelled,
    /// The volume's disk type is not a known resource kind.
    InvalidVolume,
    /// An off-chain worker was asked for an unknown task.
    UnknownOffchainMux,
    /// Fetching or parsing a record from the explorer failed.
    HttpFetchingError,
    /// No local account was available to sign with.
    NoLocalAcctForSigning,
    /// Submitting the signed price-update transaction failed.
    OffchainSignedTxError,
    /// No local account was available to submit a signed transaction.
    NoLocalAcctForSignedTx,
    /// The signer is not the farmer bound to the contract.
    UnauthorizedFarmer,
    /// The signer is not the user who created the contract.
    UnauthorizedUser,
    /// The signer is not the node named by the contract.
    UnauthorizedNode,
    /// The signer is not the configured price oracle.
    UnauthorizedOracle,
    /// The escrow balance cannot cover the claim.
    NotEnoughBalanceToClaim,
    /// No whole second has elapsed since the last claim.
    ClaimError,
    /// A currency transfer could not be made.
    CantMakeTransfer,
}

} // verus!
