//! Confirming that the money for a task or a dispute has arrived.
use crate::api::errors::{board_error, refused, ApiError};
use crate::board::deposits::{EscrowConfirmation, PendingDeposit};
use crate::board::escrow::{bond_refusal, challenged, deposit_refusal, funded_task, funds_task, with_status};
use crate::board::types::{BoardError, EscrowStatus, Task};
use crate::board::{BoardView, TaskBoard};
use crate::table::Duplicate;
use crate::types::{Id, Timestamp};
use vstd::prelude::*;

verus! {

/// The deposit of that id, which the board is known to have.
fn deposit_of(board: &TaskBoard, id: Id) -> (deposit: PendingDeposit)
    requires
        board.wf(),
        board@.pending_deposits.contains_key(id),
    ensures
        deposit@ == board@.pending_deposits[id],
{
    match board.get_pending_deposit(id) {
        Some(deposit) => deposit.duplicate(),
        None => vstd::pervasive::unreached(),
    }
}

/// Makes the task that a deposit pays for, under the id and at the instant
/// given, and says what is to be kept: the task, and the deposit as consumed,
/// both in one.
pub fn confirm_task_at(
    board: &mut TaskBoard,
    escrow_id: Id,
    observed: u64,
    now: Timestamp,
    task_id: Id,
    created_at: Timestamp,
) -> (r: Result<(Task, PendingDeposit), ApiError>)
    requires
        old(board).wf(),
        created_at.valid(),
    ensures
        final(board).wf(),
        match deposit_refusal(
            old(board)@,
            escrow_id,
            observed,
            now,
            funds_task(old(board)@.pending_deposits[escrow_id].purpose),
        ) {
            Some(e) => refused(r, board_error(e)) && final(board)@ == old(board)@,
            None => {
                let d = old(board)@.pending_deposits[escrow_id];
                &&& r is Ok
                &&& r->Ok_0.0@ == funded_task(d, task_id, created_at, now)
                &&& r->Ok_0.1@ == with_status(d, EscrowStatus::Consumed)
                &&& final(board)@ == old(board)@.with_deposit(r->Ok_0.1@).with_task(r->Ok_0.0@)
            },
        },
{
    proof {
        board.lemma_view_wf();
    }
    match board.confirm_escrow_at(escrow_id, observed, now, task_id, created_at) {
        Err(e) => Err(ApiError::from_board(e)),
        Ok(EscrowConfirmation::TaskCreated(task)) => Ok((task, deposit_of(board, escrow_id))),
    }
}

/// What came of a bond.
pub enum BondConfirmation {
    /// The dispute is open: the task and the deposit are to be kept, both in
    /// one.
    Opened(Task, PendingDeposit),
    /// The bond came too late, and is to be refunded.
    TooLate(PendingDeposit),
    Refused(ApiError),
}

/// Opens the dispute that a bond is for.
pub fn confirm_bond(board: &mut TaskBoard, escrow_id: Id, observed: u64, now: Timestamp) -> (r: BondConfirmation)
    requires
        old(board).wf(),
    ensures
        final(board).wf(),
        ({
            let d = old(board)@.pending_deposits[escrow_id];
            match bond_refusal(old(board)@, escrow_id, observed, now) {
                None => {
                    &&& r is Opened
                    &&& r->Opened_0@ == challenged(old(board)@.tasks[d.purpose->task_id], d, now)
                    &&& r->Opened_1@ == with_status(d, EscrowStatus::Consumed)
                    &&& final(board)@ == old(board)@.with_task(r->Opened_0@).with_deposit(r->Opened_1@)
                },
                Some(e) => {
                    &&& final(board)@ == old(board)@
                    &&& if e is DisputeWindowClosed {
                        r is TooLate && r->TooLate_0@ == d
                    } else {
                        r is Refused && r->Refused_0@ == board_error(e)
                    }
                },
            }
        }),
{
    proof {
        board.lemma_view_wf();
    }
    match board.confirm_dispute_bond(escrow_id, observed, now) {
        Ok(task) => BondConfirmation::Opened(task, deposit_of(board, escrow_id)),
        Err(BoardError::DisputeWindowClosed) => BondConfirmation::TooLate(deposit_of(board, escrow_id)),
        Err(e) => BondConfirmation::Refused(ApiError::from_board(e)),
    }
}

/// One payment makes one task: a deposit that is consumed makes no other.
pub proof fn lemma_deposit_is_used_once(b: BoardView, escrow_id: Id, observed: u64, now: Timestamp, fits: bool)
    requires
        b.pending_deposits.contains_key(escrow_id),
        b.pending_deposits[escrow_id].status != EscrowStatus::Reserved,
    ensures
        deposit_refusal(b, escrow_id, observed, now, fits) is Some,
{
}

}
