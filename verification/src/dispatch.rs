//! The calls that a manager issues to its services, and the two orders in
//! which it issues them.

use vstd::prelude::*;

verus! {

/// What a manager can ask of a service: one variant for each operation of
/// `Service` that acts on it.
#[derive(Debug, Clone, Copy, PartialEq, Eq, Structural)]
pub enum Operation {
    Start,
    AwaitStarted,
    StartAndAwait,
    Stop,
    AwaitStopped,
    StopAndAwait,
}

/// One call that a manager has issued: which operation, and to the service
/// at which position of the registration order, the first one at 0.
pub struct Dispatch {
    pub operation: Operation,
    pub position: nat,
}

/// `operation` issued once to each of `count` services, from the first
/// registered to the last.
pub open spec fn ascending(operation: Operation, count: nat) -> Seq<Dispatch> {
    Seq::new(count, |step: int| Dispatch { operation, position: step as nat })
}

/// `operation` issued once to each of `count` services, from the last
/// registered to the first.
pub open spec fn descending(operation: Operation, count: nat) -> Seq<Dispatch> {
    Seq::new(count, |step: int| Dispatch { operation, position: (count - 1 - step) as nat })
}

impl Operation {
    /// Whether the operation belongs to stopping. Those that do are issued
    /// in descending order, the others in ascending order.
    pub open spec fn winds_down(self) -> bool {
        match self {
            Operation::Start | Operation::AwaitStarted | Operation::StartAndAwait => false,
            Operation::Stop | Operation::AwaitStopped | Operation::StopAndAwait => true,
        }
    }
}

/// The calls that a manager of `count` services issues when it is asked
/// `operation`: the same operation, once to each service, in the order that
/// belongs to the operation.
pub open spec fn relayed(operation: Operation, count: nat) -> Seq<Dispatch> {
    if operation.winds_down() {
        descending(operation, count)
    } else {
        ascending(operation, count)
    }
}

/// The positions that a run of calls went to, in the order of the calls.
pub open spec fn positions(calls: Seq<Dispatch>) -> Seq<nat> {
    Seq::new(calls.len(), |step: int| calls[step].position)
}

/// Descending order is ascending order read backwards: the service that
/// is reached first on the way up is reached last on the way down.
pub proof fn lemma_descending_reverses_ascending(operation: Operation, count: nat)
    ensures
        descending(operation, count) == ascending(operation, count).reverse(),
{
    assert(descending(operation, count) =~= ascending(operation, count).reverse());
}

/// Ascending order is the order of registration: the call at each step goes
/// to the service that was registered at that step.
pub proof fn lemma_start_order_is_registration_order(up: Operation, count: nat)
    ensures
        positions(ascending(up, count)) == Seq::new(count, |step: int| step as nat),
{
    assert(positions(ascending(up, count)) =~= Seq::new(count, |step: int| step as nat));
}

/// Whatever the two operations are, the services are reached on the way
/// down in exactly the reverse of the order in which they are reached on the
/// way up.
pub proof fn lemma_stop_order_reverses_start_order(up: Operation, down: Operation, count: nat)
    ensures
        positions(descending(down, count)) == positions(ascending(up, count)).reverse(),
{
    assert(positions(descending(down, count)) =~= positions(ascending(up, count)).reverse());
}

/// Either order reaches every service exactly once: each position below
/// `count` occurs at one step and at no other.
pub proof fn lemma_each_service_reached_once(operation: Operation, count: nat, position: nat)
    requires
        position < count,
    ensures
        ascending(operation, count)[position as int].position == position,
        descending(operation, count)[count - 1 - position].position == position,
        forall|step: int|
            0 <= step < count && #[trigger] ascending(operation, count)[step].position == position
                ==> step == position,
        forall|step: int|
            0 <= step < count && #[trigger] descending(operation, count)[step].position
                == position ==> step == count - 1 - position,
{
}

/// What a manager issues for each of the six operations: the three of
/// starting go up, the three of stopping go down.
pub proof fn lemma_relayed_by_operation(count: nat)
    ensures
        relayed(Operation::Start, count) == ascending(Operation::Start, count),
        relayed(Operation::AwaitStarted, count) == ascending(Operation::AwaitStarted, count),
        relayed(Operation::StartAndAwait, count) == ascending(Operation::StartAndAwait, count),
        relayed(Operation::Stop, count) == descending(Operation::Stop, count),
        relayed(Operation::AwaitStopped, count) == descending(Operation::AwaitStopped, count),
        relayed(Operation::StopAndAwait, count) == descending(Operation::StopAndAwait, count),
{
}

/// A manager of no services issues no call, whatever it is asked.
pub proof fn lemma_no_service_no_call(operation: Operation)
    ensures
        relayed(operation, 0) == Seq::<Dispatch>::empty(),
        ascending(operation, 0) == Seq::<Dispatch>::empty(),
        descending(operation, 0) == Seq::<Dispatch>::empty(),
{
    assert(ascending(operation, 0) =~= Seq::<Dispatch>::empty());
    assert(descending(operation, 0) =~= Seq::<Dispatch>::empty());
}

} // verus!
