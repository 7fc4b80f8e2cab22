//! Where you have services, you need managers.

use crate::dispatch::ascending;
use crate::dispatch::descending;
use crate::dispatch::Dispatch;
use crate::dispatch::Operation;
use crate::service::Service;
use vstd::prelude::*;

verus! {

/// The name under which every `ServiceManager` goes as a `Service`.
pub const SERVICE_MANAGER_SERVICE_NAME: &'static str = "srvzio::ServiceManager";

/// Manages an internal collection of services.
///
/// This is a simple composite: services are started in the order in which
/// they were registered and stopped in the reverse order, one after the
/// other, never two at once. A `ServiceManager` is a `Service` too, so a
/// manager can hold managers.
///
/// Beside its services a manager keeps, for the proofs only, the list of
/// the calls that it has issued to them.
pub struct ServiceManager {
    services: Vec<Box<dyn Service>>,
    issued: Ghost<Seq<Dispatch>>,
}

/// Puts `item` behind the items that are there.
///
/// It is stated for every type of item, and the new length beside the new
/// contents, so that a caller has both of a vector of trait objects too.
fn append<T>(items: &mut Vec<T>, item: T)
    ensures
        final(items)@ == old(items)@.push(item),
        final(items)@.len() == old(items)@.len() + 1,
{
    items.push(item);
}

impl ServiceManager {
    /// The registered services, in the order of their registration.
    pub closed spec fn services(&self) -> Seq<Box<dyn Service>> {
        self.services@
    }

    /// How many services are registered.
    pub open spec fn len(&self) -> nat {
        self.services().len()
    }

    /// Every call that this manager has issued to its services, oldest first.
    pub closed spec fn issued(&self) -> Seq<Dispatch> {
        self.issued@
    }

    /// A manager of no services, which has issued no call.
    pub fn new() -> (manager: Self)
        ensures
            manager.services() == Seq::<Box<dyn Service>>::empty(),
            manager.issued() == Seq::<Dispatch>::empty(),
    {
        ServiceManager { services: Vec::new(), issued: Ghost(Seq::empty()) }
    }

    /// Register an instance of `Service`.
    ///
    /// The order of registration is important: services are started in that
    /// order and stopped in the reverse order. The new service comes last,
    /// and the ones before it stay where they are.
    pub fn register(&mut self, service_box: Box<dyn Service>)
        ensures
            final(self).services() == old(self).services().push(service_box),
            final(self).len() == old(self).len() + 1,
            final(self).issued() == old(self).issued(),
    {
        append(&mut self.services, service_box);
    }

    /// Issues `operation` to the service at `position`, and no other call.
    fn dispatch(&mut self, position: usize, operation: Operation)
        requires
            position < old(self).len(),
        ensures
            final(self).len() == old(self).len(),
            final(self).issued() == old(self).issued().push(
                Dispatch { operation, position: position as nat },
            ),
    {
        let service = &mut self.services[position];
        match operation {
            Operation::Start => service.start(),
            Operation::AwaitStarted => service.await_started(),
            Operation::StartAndAwait => service.start_and_await(),
            Operation::Stop => service.stop(),
            Operation::AwaitStopped => service.await_stopped(),
            Operation::StopAndAwait => service.stop_and_await(),
        }
        proof {
            self.issued@ = self.issued@.push(Dispatch { operation, position: position as nat });
        }
    }

    /// Apply the same operation to all contained services, in order.
    fn apply_ordered(&mut self, operation: Operation)
        ensures
            final(self).len() == old(self).len(),
            final(self).issued() == old(self).issued() + ascending(operation, old(self).len()),
    {
        let count: usize = self.services.len();
        let mut step: usize = 0;
        while step < count
            invariant
                step <= count,
                self.len() == count,
                old(self).len() == count,
                self.issued() =~= old(self).issued() + ascending(operation, step as nat),
            decreases count - step,
        {
            self.dispatch(step, operation);
            step = step + 1;
        }
    }

    /// Apply the same operation to all contained services, in reverse order.
    fn apply_reversed(&mut self, operation: Operation)
        ensures
            final(self).len() == old(self).len(),
            final(self).issued() == old(self).issued() + descending(operation, old(self).len()),
    {
        let count: usize = self.services.len();
        let mut step: usize = 0;
        while step < count
            invariant
                step <= count,
                self.len() == count,
                old(self).len() == count,
                self.issued() =~= old(self).issued() + descending(operation, count as nat).take(
                    step as int,
                ),
            decreases count - step,
        {
            self.dispatch(count - 1 - step, operation);
            step = step + 1;
        }
    }
}

impl Service for ServiceManager {
    fn name(&self) -> (name: &'static str)
        ensures
            name@ == SERVICE_MANAGER_SERVICE_NAME@,
    {
        SERVICE_MANAGER_SERVICE_NAME
    }

    /// Start all registered services, in order of registration.
    fn start(&mut self)
        ensures
            final(self).len() == old(self).len(),
            final(self).issued() == old(self).issued() + ascending(
                Operation::Start,
                old(self).len(),
            ),
    {
        self.apply_ordered(Operation::Start);
    }

    /// Wait for all registered services to be started, in order of
    /// registration: for the first until it has started, only then for the
    /// second, and so on.
    fn await_started(&mut self)
        ensures
            final(self).len() == old(self).len(),
            final(self).issued() == old(self).issued() + ascending(
                Operation::AwaitStarted,
                old(self).len(),
            ),
    {
        self.apply_ordered(Operation::AwaitStarted);
    }

    /// Start and then wait for each registered service, in order of
    /// registration.
    ///
    /// This is different from calling `start()` and then `await_started()`:
    /// a service has started before the next one is asked to. It makes a
    /// graceful start.
    fn start_and_await(&mut self)
        ensures
            final(self).len() == old(self).len(),
            final(self).issued() == old(self).issued() + ascending(
                Operation::StartAndAwait,
                old(self).len(),
            ),
    {
        self.apply_ordered(Operation::StartAndAwait);
    }

    /// Stop all registered services, in reverse order of registration.
    fn stop(&mut self)
        ensures
            final(self).len() == old(self).len(),
            final(self).issued() == old(self).issued() + descending(
                Operation::Stop,
                old(self).len(),
            ),
    {
        self.apply_reversed(Operation::Stop);
    }

    /// Wait for all registered services to be stopped, in reverse order of
    /// registration: for the last until it has stopped, only then for the one
    /// before it, and so on.
    fn await_stopped(&mut self)
        ensures
            final(self).len() == old(self).len(),
            final(self).issued() == old(self).issued() + descending(
                Operation::AwaitStopped,
                old(self).len(),
            ),
    {
        self.apply_reversed(Operation::AwaitStopped);
    }

    /// Stop and then wait for each registered service, in reverse order of
    /// registration.
    ///
    /// This is different from calling `stop()` and then `await_stopped()`:
    /// a service has stopped before the one before it is asked to. It makes a
    /// graceful stop.
    fn stop_and_await(&mut self)
        ensures
            final(self).len() == old(self).len(),
            final(self).issued() == old(self).issued() + descending(
                Operation::StopAndAwait,
                old(self).len(),
            ),
    {
        self.apply_reversed(Operation::StopAndAwait);
    }
}

} // verus!
