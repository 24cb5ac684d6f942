//! What a transaction returns, decided from what the peripheral handed back.
use crate::error::Error;
use crate::protocol::{combined_result, copy_result, single_result};
use crate::registers::Direction;
use vstd::prelude::*;

verus! {

/// Whether a burst moved as many bytes as its buffer holds.
pub fn is_complete(amount: u32, len: usize) -> (r: bool)
    ensures
        r == (amount == len),
{
    amount as usize == len
}

/// The result of a transaction of one burst in `direction`. `complete` says
/// whether the burst moved as many bytes as its buffer holds, `anack` is what
/// the address-NACK flag held. The address NACK is reported first.
pub fn single_outcome(direction: Direction, complete: bool, anack: u32) -> (r: Result<
    (),
    Error,
>)
    ensures
        r == single_result(direction, complete, anack),
{
    if anack != 0 {
        Err(Error::AddressNack)
    } else if !complete {
        match direction {
            Direction::Tx => Err(Error::Transmit),
            Direction::Rx => Err(Error::Receive),
        }
    } else {
        Ok(())
    }
}

/// The result of a write followed by a read that ran both of its bursts. A
/// wrong transmit amount is reported before a wrong receive amount.
pub fn combined_outcome(tx_complete: bool, rx_complete: bool) -> (r: Result<(), Error>)
    ensures
        r == combined_result(tx_complete, rx_complete),
{
    if !tx_complete {
        return Err(Error::Transmit);
    }
    if !rx_complete {
        return Err(Error::Receive);
    }
    Ok(())
}

/// The result of a copied write followed by a read that sent every window.
pub fn copy_outcome(rx_complete: bool) -> (r: Result<(), Error>)
    ensures
        r == copy_result(rx_complete),
{
    if !rx_complete {
        return Err(Error::Receive);
    }
    Ok(())
}

} // verus!
