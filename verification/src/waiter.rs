//! Handing the result of a command to the caller that waits for it.
use tokio::sync::oneshot::{Receiver, Sender};
use vstd::prelude::*;

use crate::capture::{CommandResult, ResultView};

verus! {

/// The sending half of a one-shot channel, carried as an opaque value.
#[verifier::external_type_specification]
#[verifier::external_body]
#[verifier::reject_recursive_types(T)]
pub struct ExSender<T>(tokio::sync::oneshot::Sender<T>);

/// The receiving half of a one-shot channel, carried as an opaque value.
#[verifier::external_type_specification]
#[verifier::external_body]
#[verifier::reject_recursive_types(T)]
pub struct ExReceiver<T>(tokio::sync::oneshot::Receiver<T>);

/// The error of a receiver whose sender is gone, carried as an opaque value.
#[verifier::external_type_specification]
#[verifier::external_body]
pub struct ExRecvError(tokio::sync::oneshot::error::RecvError);

/// Whether the two halves belong to one channel.
pub uninterp spec fn oneshot_pair(
    sender: Sender<CommandResult>,
    receiver: Receiver<CommandResult>,
) -> bool;

/// Whether `result` was sent through `waiter`, and whether its receiver was
/// still there to take it.
pub uninterp spec fn handed_over(
    waiter: Sender<CommandResult>,
    result: ResultView,
    taken: bool,
) -> bool;

/// Whether `result` was sent through `waiter`, and nothing else ever is.
pub open spec fn sent_once(
    waiter: Sender<CommandResult>,
    result: ResultView,
    taken: bool,
) -> bool {
    &&& handed_over(waiter, result, taken)
    &&& forall|other: ResultView, was_taken: bool| #[trigger]
        handed_over(waiter, other, was_taken) ==> other == result && was_taken == taken
}

/// Whether the caller that waits, if there is one, was sent `result`.
pub open spec fn delivered(waiter: Option<Sender<CommandResult>>, result: ResultView) -> bool {
    waiter matches Some(waiter) ==> sent_once(waiter, result, true) || sent_once(
        waiter,
        result,
        false,
    )
}

/// What a receiver holds at the moment.
#[derive(Debug)]
pub enum Reply {
    /// The result has come.
    Result(CommandResult),
    /// The result has not come yet.
    Empty,
    /// No result will come.
    Closed,
}

/// `oneshot::channel` makes the two halves of one new channel.
#[verifier::external_body]
pub(crate) fn new_waiter() -> (halves: (Sender<CommandResult>, Receiver<CommandResult>))
    ensures
        oneshot_pair(halves.0, halves.1),
{
    tokio::sync::oneshot::channel()
}

/// `Sender::send` sends `result` through `waiter`, which it uses up, so that
/// nothing else can be sent through it. It says whether the receiver was still
/// there; that depends on the caller, so nothing is promised of it.
#[verifier::external_body]
pub(crate) fn hand_over(waiter: Sender<CommandResult>, result: CommandResult) -> (taken: bool)
    ensures
        sent_once(waiter, result@, taken),
{
    waiter.send(result).is_ok()
}

/// `Receiver::try_recv` looks for a result without waiting for one. A result
/// that has come was sent by the other half of the channel. Whether one has
/// come depends on that half, so nothing is promised of it.
#[verifier::external_body]
pub(crate) fn try_take(receiver: &mut Receiver<CommandResult>) -> (reply: Reply)
    ensures
        reply matches Reply::Result(result) ==> forall|sender: Sender<CommandResult>| #[trigger]
            oneshot_pair(sender, *old(receiver)) ==> handed_over(sender, result@, true),
{
    match receiver.try_recv() {
        Ok(result) => Reply::Result(result),
        Err(tokio::sync::oneshot::error::TryRecvError::Empty) => Reply::Empty,
        Err(tokio::sync::oneshot::error::TryRecvError::Closed) => Reply::Closed,
    }
}

/// Whether a look into `receiver` gives `reply`.
pub closed spec fn found_in(receiver: Receiver<CommandResult>, reply: Reply) -> bool {
    exists|at: &mut Receiver<CommandResult>|
        *at == receiver && #[trigger] call_ensures(try_take, (at,), reply)
}

/// Looks for a result without waiting for one.
pub(crate) fn look_in(receiver: &mut Receiver<CommandResult>) -> (reply: Reply)
    ensures
        found_in(*old(receiver), reply),
        reply matches Reply::Result(result) ==> forall|sender: Sender<CommandResult>| #[trigger]
            oneshot_pair(sender, *old(receiver)) ==> handed_over(sender, result@, true),
{
    let reply = try_take(receiver);
    assert(exists|at: &mut Receiver<CommandResult>|
        *at == *old(receiver) && #[trigger] call_ensures(try_take, (at,), reply));
    reply
}

/// A caller receives what its command ended with: where `drained` was sent
/// through the waiter of a channel and `received` came out of it, the two are
/// the same result.
pub proof fn received_is_sent(
    waiter: Sender<CommandResult>,
    drained: ResultView,
    received: ResultView,
)
    requires
        delivered(Some(waiter), drained),
        handed_over(waiter, received, true),
    ensures
        received == drained,
{
}

} // verus!
