use vstd::prelude::*;

verus! {

/// Status of a move request as the match server reports it.
#[derive(Clone, Copy, Debug, PartialEq, Eq, Structural)]
pub enum MoveStatus {
    /// The move was accepted (the server's `ok`).
    Moved,
    AlreadyMoved,
    GameFinished,
    Unknown,
}

/// What the driver loop does next.
#[derive(Clone, Copy, Debug, PartialEq, Eq, Structural)]
pub enum NextStep {
    /// Send the same move again without deciding anew.
    Resend,
    /// Decide the next move from the new state.
    Decide,
    /// The match is over, or the server answered something unknown.
    Stop,
}

/// The driver's next step after a move request came back with `status`.
pub fn next_step(status: MoveStatus) -> (r: NextStep)
    ensures
        status == MoveStatus::AlreadyMoved <==> r == NextStep::Resend,
        status == MoveStatus::Moved <==> r == NextStep::Decide,
        (status == MoveStatus::GameFinished || status == MoveStatus::Unknown) <==> r == NextStep::Stop,
{
    match status {
        MoveStatus::AlreadyMoved => NextStep::Resend,
        MoveStatus::Moved => NextStep::Decide,
        _ => NextStep::Stop,
    }
}

} // verus!
