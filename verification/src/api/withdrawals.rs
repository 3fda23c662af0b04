//! Taking money out of the exchange.
use crate::api::errors::{board_error, refused, told, Answer, ApiError, ErrorView};
use crate::api::requests::MIN_EXCHANGE_WITHDRAWAL;
use crate::board::exchange::free_base;
use crate::board::types::{BoardError, Payment, PaymentPurpose, PaymentStatus};
use crate::board::{BoardView, TaskBoard};
use crate::series::HUB_TRANSACTION_FEE;
use crate::types::{Id, PublicKey, Timestamp};
use vstd::prelude::*;
use vstd::string::*;

verus! {

/// Why so much cannot be withdrawn, if it cannot.
pub open spec fn withdrawal_denied(b: BoardView, owner: PublicKey, debit: u64) -> Option<ErrorView> {
    let available = free_base(b.account_of(owner));
    if debit < MIN_EXCHANGE_WITHDRAWAL {
        Some(told(Answer::BadRequest, "withdrawal must be at least 1001; amount includes the 1000 fee"@))
    } else if available < debit {
        Some(board_error(BoardError::InsufficientBalance { available, required: debit }))
    } else {
        None
    }
}

/// What of a withdrawal reaches its owner.
pub open spec fn reaching_owner(debit: u64) -> int {
    debit - HUB_TRANSACTION_FEE
}

/// What of a withdrawal reaches its owner.
pub fn check_withdrawal(board: &TaskBoard, owner: &PublicKey, debit: u64) -> (r: Result<u64, ApiError>)
    requires
        board.wf(),
    ensures
        match withdrawal_denied(board@, *owner, debit) {
            Some(e) => refused(r, e),
            None => r is Ok && r->Ok_0 == reaching_owner(debit) && r->Ok_0 > 0,
        },
{
    if debit < MIN_EXCHANGE_WITHDRAWAL {
        return Err(
            ApiError::BadRequest("withdrawal must be at least 1001; amount includes the 1000 fee".to_owned()),
        );
    }
    let account = board.exchange_account(owner);
    let available: u64 = account.base_balance.saturating_sub(account.locked_base);
    if available < debit {
        return Err(ApiError::from_board(BoardError::InsufficientBalance { available, required: debit }));
    }
    Ok(debit - HUB_TRANSACTION_FEE)
}

/// The payment that a withdrawal is.
pub open spec fn paying_out(custody: PublicKey, owner: PublicKey, debit: u64, id: Id, now: Timestamp) -> Payment {
    Payment {
        id,
        purpose: PaymentPurpose::Withdrawal { debited: debit },
        source: custody,
        recipient: owner,
        amount: (debit - HUB_TRANSACTION_FEE) as u64,
        status: PaymentStatus::Pending,
        created_at: now,
    }
}

/// The payment that a withdrawal is.
pub fn withdrawal_payment(custody: &PublicKey, owner: &PublicKey, debit: u64, id: Id, now: Timestamp) -> (p: Payment)
    requires
        debit >= MIN_EXCHANGE_WITHDRAWAL,
    ensures
        p == paying_out(*custody, *owner, debit, id, now),
{
    Payment {
        id,
        purpose: PaymentPurpose::Withdrawal { debited: debit },
        source: *custody,
        recipient: *owner,
        amount: debit - HUB_TRANSACTION_FEE,
        status: PaymentStatus::Pending,
        created_at: now,
    }
}

}
