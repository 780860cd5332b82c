use vstd::prelude::*;
use crate::errors::TrustError;

verus! {

/// The outcome of a successful reconciliation: the balance the ledger will
/// hold from now on, and what is owed back to the caller.
#[derive(Clone, Copy, Debug, PartialEq, Eq, Structural)]
pub struct Reconciliation {
    pub new_balance: u128,
    pub refund: u128,
}

/// Compare the storage cost a record now requires against the funds the
/// caller holds and has just attached.
///
/// The required deposit is `measured_size * cost_per_byte`. Where held plus
/// attached funds fall short, the call fails with the exact deficit and the
/// enclosing mutation must not commit. Where they exceed the requirement,
/// the balance is trimmed to the requirement and the excess is owed back.
/// Otherwise everything available is kept and nothing is refunded.
pub fn reconcile(
    measured_size: u64,
    cost_per_byte: u128,
    current_balance: u128,
    attached: u128,
) -> (r: Result<Reconciliation, TrustError>)
    requires
        measured_size * cost_per_byte <= u128::MAX,
        current_balance + attached <= u128::MAX,
    ensures
        ({
            let required = measured_size * cost_per_byte;
            let available = current_balance + attached;
            if available < required {
                r == Err::<Reconciliation, TrustError>(TrustError::InsufficientFunds {
                    deficit: (required - available) as u128,
                })
            } else {
                r == Ok::<Reconciliation, TrustError>(Reconciliation {
                    new_balance: required as u128,
                    refund: (available - required) as u128,
                })
            }
        }),
{
    let required: u128 = (measured_size as u128) * cost_per_byte;
    let available: u128 = current_balance + attached;
    if available < required {
        Err(TrustError::InsufficientFunds { deficit: required - available })
    } else {
        Ok(Reconciliation { new_balance: required, refund: available - required })
    }
}

} // verus!
