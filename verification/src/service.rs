//! The key module of this library: a `Service`.

use vstd::prelude::*;

verus! {

/// A `Service` is a black box that does work: it can be started and it can
/// be stopped.
///
/// This trait abstracts away what can be done to a `Service` from the
/// outside. It is up to the implementor to make sense of what starting and
/// stopping mean, so no operation promises anything of the service after it:
/// whoever calls one learns only that the call has returned.
///
/// Every operation but `name` is a no-op unless the implementor says
/// otherwise.
pub trait Service {
    /// Service name: a stable identifier, cheap and without side effects.
    fn name(&self) -> &'static str;

    /// Starts the service. The work may go on after the call has returned.
    fn start(&mut self) {
    }

    /// Awaits that the service is done starting.
    ///
    /// Implement to wait for a service to be fully started. It is usually
    /// called after `start()`, and must be safe to call on a service that was
    /// never started.
    fn await_started(&mut self) {
    }

    /// Starts the service and waits for it to be done starting: a graceful
    /// start.
    ///
    /// An implementor that can do both at once may replace it, and still
    /// returns only once the service has started.
    fn start_and_await(&mut self) {
        self.start();
        self.await_started();
    }

    /// Stops the service. The work may go on after the call has returned.
    fn stop(&mut self) {
    }

    /// Awaits that the service is done stopping.
    ///
    /// Implement to wait for a service to be fully stopped. It is usually
    /// called after `stop()`, and must be safe to call on a service that was
    /// never stopped.
    fn await_stopped(&mut self) {
    }

    /// Stops the service and waits for it to be done stopping: a graceful
    /// stop.
    ///
    /// An implementor that can do both at once may replace it, and still
    /// returns only once the service has stopped.
    fn stop_and_await(&mut self) {
        self.stop();
        self.await_stopped();
    }
}

} // verus!
