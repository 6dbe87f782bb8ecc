use vstd::prelude::*;

verus! {

/// Why a write was not paid for.
#[derive(Clone, Copy, Debug, PartialEq, Eq, Structural)]
pub enum DepositError {
    /// The attached deposit is below the storage cost of the write; `required`
    /// is that cost, so that the caller can retry with enough funds.
    InsufficientDeposit { required: u128 },
}

/// What `bytes_written` bytes of storage cost at `price_per_byte` each.
pub open spec fn storage_cost(bytes_written: int, price_per_byte: int) -> int {
    bytes_written * price_per_byte
}

/// The outcome of charging a write of `bytes_written` bytes against
/// `attached_deposit`: the surplus to refund, or the amount that was required.
pub open spec fn settlement(bytes_written: int, price_per_byte: int, attached_deposit: int) -> Result<u128, DepositError> {
    let cost = storage_cost(bytes_written, price_per_byte);
    if cost <= attached_deposit {
        Ok((attached_deposit - cost) as u128)
    } else {
        Err(DepositError::InsufficientDeposit { required: cost as u128 })
    }
}

/// Charges the storage cost of a write against the deposit attached to the
/// call. Returns the surplus to refund to the payer (zero when the deposit is
/// exact), or fails when the deposit does not cover the cost.
pub fn settle_deposit(bytes_written: u64, price_per_byte: u128, attached_deposit: u128) -> (r: Result<u128, DepositError>)
    requires
        storage_cost(bytes_written as int, price_per_byte as int) <= u128::MAX,
    ensures
        r == settlement(bytes_written as int, price_per_byte as int, attached_deposit as int),
        r is Ok <==> storage_cost(bytes_written as int, price_per_byte as int) <= attached_deposit,
{
    let cost: u128 = (bytes_written as u128) * price_per_byte;
    if cost <= attached_deposit {
        Ok(attached_deposit - cost)
    } else {
        Err(DepositError::InsufficientDeposit { required: cost })
    }
}

} // verus!
