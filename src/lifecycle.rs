use vstd::prelude::*;

use crate::error::LifecycleError;
use crate::fetcher::{Configuration, FetchLoop, LoopState};

verus! {

/// Where a controller stands. It only moves forward:
/// `Idle -> Running -> Stopping -> Stopped`.
#[derive(Debug, Clone, Copy, PartialEq, Eq, Structural)]
pub enum Lifecycle {
    Idle,
    Running,
    Stopping,
    Stopped,
}

/// A controller as mathematical values: its stage, and, until it starts,
/// the loop that starting will hand out.
pub struct ControllerView {
    pub state: Lifecycle,
    pub pending: Option<LoopState>,
}

/// Owns the start/stop protocol of one fetch loop over one configuration.
///
/// Starting hands the configuration over to a new [`FetchLoop`], once: a
/// controller never runs two loops. Stopping is cooperative: [`stop`] marks
/// the request, the driver cancels the loop, and [`confirm_stop`] records
/// whether the loop acknowledged before it went away.
///
/// [`stop`]: Controller::stop
/// [`confirm_stop`]: Controller::confirm_stop
pub struct Controller {
    configuration: Option<Configuration>,
    state: Lifecycle,
}

impl View for Controller {
    type V = ControllerView;

    closed spec fn view(&self) -> ControllerView {
        ControllerView {
            state: self.state,
            pending: match self.configuration {
                Some(c) => Some(c.first_state()),
                None => None,
            },
        }
    }
}

impl Controller {
    /// The configuration is still held exactly while the controller is idle.
    pub open spec fn wf(&self) -> bool {
        (self@.state == Lifecycle::Idle) == (self@.pending is Some)
    }

    /// An idle controller for `configuration`.
    pub fn new(configuration: Configuration) -> (c: Controller)
        ensures
            c.wf(),
            c@ == (ControllerView {
                state: Lifecycle::Idle,
                pending: Some(configuration.first_state()),
            }),
    {
        Controller { configuration: Some(configuration), state: Lifecycle::Idle }
    }

    /// The stage the controller is in.
    pub fn state(&self) -> (r: Lifecycle)
        ensures
            r == self@.state,
    {
        self.state
    }

    /// Starts: an idle controller hands out the loop over its configuration
    /// and runs; any other is refused and left as it was.
    pub fn start(&mut self) -> (r: Result<FetchLoop, LifecycleError>)
        requires
            old(self).wf(),
        ensures
            final(self).wf(),
            old(self)@.state == Lifecycle::Idle ==> {
                &&& r matches Ok(l)
                &&& l.wf()
                &&& l@ == old(self)@.pending->Some_0
                &&& final(self)@ == (ControllerView { state: Lifecycle::Running, pending: None })
            },
            old(self)@.state != Lifecycle::Idle ==> {
                &&& r matches Err(e)
                &&& e == LifecycleError::AlreadyStarted
                &&& final(self)@ == old(self)@
            },
    {
        if self.state != Lifecycle::Idle {
            return Err(LifecycleError::AlreadyStarted);
        }
        match self.configuration.take() {
            Some(configuration) => {
                self.state = Lifecycle::Running;
                Ok(FetchLoop::new(configuration))
            },
            None => Err(LifecycleError::AlreadyStarted),
        }
    }

    /// Asks a running controller to stop: it moves to `Stopping`, and the
    /// driver is to cancel the loop. Any other is refused and left as it was.
    pub fn stop(&mut self) -> (r: Result<(), LifecycleError>)
        requires
            old(self).wf(),
        ensures
            final(self).wf(),
            old(self)@.state == Lifecycle::Running ==> r is Ok && final(self)@ == (ControllerView {
                state: Lifecycle::Stopping,
                ..old(self)@
            }),
            old(self)@.state != Lifecycle::Running ==> r == Err::<(), LifecycleError>(
                LifecycleError::NotRunning,
            ) && final(self)@ == old(self)@,
    {
        if self.state != Lifecycle::Running {
            return Err(LifecycleError::NotRunning);
        }
        self.state = Lifecycle::Stopping;
        Ok(())
    }

    /// Records how the loop went away: a stopping controller is then
    /// stopped, and the stop succeeded exactly when the loop acknowledged.
    /// A controller that was not stopping is refused and left as it was.
    pub fn confirm_stop(&mut self, acknowledged: bool) -> (r: Result<(), LifecycleError>)
        requires
            old(self).wf(),
        ensures
            final(self).wf(),
            old(self)@.state == Lifecycle::Stopping ==> {
                &&& final(self)@ == (ControllerView { state: Lifecycle::Stopped, ..old(self)@ })
                &&& acknowledged ==> r is Ok
                &&& !acknowledged ==> r == Err::<(), LifecycleError>(
                    LifecycleError::Unacknowledged,
                )
            },
            old(self)@.state != Lifecycle::Stopping ==> r == Err::<(), LifecycleError>(
                LifecycleError::NotStopping,
            ) && final(self)@ == old(self)@,
    {
        if self.state != Lifecycle::Stopping {
            return Err(LifecycleError::NotStopping);
        }
        self.state = Lifecycle::Stopped;
        if acknowledged {
            Ok(())
        } else {
            Err(LifecycleError::Unacknowledged)
        }
    }
}

} // verus!
