//! The interface that is watched, and changing it.
//!
//! A change opens the new capture first. The current one stays until the new one works,
//! and comes back if the new one fails on its first read.

use vstd::prelude::*;
use vstd::string::*;

use crate::capture::interfaces::{
    name_views, select_name, selected, InterfaceInfo, SelectError,
};
use crate::pipeline::{CaptureReadiness, PipelineError};
use crate::text::same_text;

verus! {

/// What a request to change the interface came to.
#[derive(Clone, Copy, Debug, PartialEq, Eq, Structural)]
pub enum Activation {
    /// The interface is watched.
    Activated,
    /// The interface is being opened.
    Pending,
    /// The interface is watched already.
    Unchanged,
}

/// The span of time that traffic is ranked over.
#[derive(Clone, Copy, Debug, PartialEq, Eq, Structural)]
pub enum RankWindow {
    Cumulative,
    FiveSeconds,
    TenSeconds,
    ThirtySeconds,
    SixtySeconds,
    FiveMinutes,
}

/// An interface and the pipeline that watches it.
#[derive(Debug)]
pub struct ActiveCapture<H> {
    pub interface: String,
    pub pipeline: H,
}

/// Why the interface cannot be changed.
#[derive(Debug)]
pub enum SessionError {
    /// No interface is selected.
    Selector(SelectError),
    /// Another change is not done yet.
    AlreadyPending,
    /// The worker that opened the interface is gone.
    WorkerGone,
    /// The interface could not be opened.
    Failed(String),
}

/// What to say of it.
pub open spec fn error_text(error: SessionError) -> Seq<char> {
    match error {
        SessionError::Selector(error) => crate::capture::interfaces::failure_text(
            error.selector@,
            error.failure,
        ),
        SessionError::AlreadyPending => "an interface activation is already in progress"@,
        SessionError::WorkerGone => "interface activation worker stopped unexpectedly"@,
        SessionError::Failed(message) => message@,
    }
}

impl SessionError {
    /// What to say of it.
    pub fn message(&self) -> (message: String)
        ensures
            message@ == error_text(*self),
    {
        match self {
            SessionError::Selector(error) => error.message(),
            SessionError::AlreadyPending => {
                "an interface activation is already in progress".to_owned()
            },
            SessionError::WorkerGone => {
                "interface activation worker stopped unexpectedly".to_owned()
            },
            SessionError::Failed(message) => message.clone(),
        }
    }
}

/// What a request to change the interface asks for.
#[derive(Debug)]
pub enum ActivationPlan {
    /// Nothing: the interface is watched already.
    Unchanged,
    /// Open this interface.
    Open(String),
}

/// What came of opening an interface, as far as it is known.
#[derive(Debug)]
pub enum Opened<H> {
    /// It is not known yet.
    Nothing,
    /// The worker that opened it is gone.
    WorkerGone,
    /// It could not be opened.
    Failed(String),
    /// It is open.
    Done(H, CaptureReadiness),
}

/// The interface that is watched, and what it may be changed to.
#[derive(Debug)]
pub struct TrafficSession<H> {
    pub interfaces: Vec<InterfaceInfo>,
    pub active: Option<ActiveCapture<H>>,
    /// What was watched before, while the new capture has not given a first result.
    pub fallback: Option<ActiveCapture<H>>,
    /// The interface that is being opened.
    pub pending: Option<String>,
    pub rank_window: RankWindow,
}

/// The names of interfaces.
pub open spec fn interface_names(interfaces: Seq<InterfaceInfo>) -> Seq<Seq<char>> {
    interfaces.map_values(|interface: InterfaceInfo| interface.name@)
}

impl<H> TrafficSession<H> {
    /// The interface that a selector selects.
    pub open spec fn chosen(self, selector: Seq<char>) -> Option<Seq<char>> {
        match selected(selector, interface_names(self.interfaces@)) {
            Ok(place) => Some(self.interfaces@[place].name@),
            Err(_) => None,
        }
    }

    /// The interface that is watched.
    pub open spec fn watched(self) -> Option<Seq<char>> {
        match self.active {
            Some(active) => Some(active.interface@),
            None => None,
        }
    }

    /// No interface is watched yet.
    pub fn discover(interfaces: Vec<InterfaceInfo>) -> (session: Self)
        ensures
            session.interfaces == interfaces,
            session.active is None,
            session.fallback is None,
            session.pending is None,
            session.rank_window == RankWindow::Cumulative,
    {
        TrafficSession {
            interfaces,
            active: None,
            fallback: None,
            pending: None,
            rank_window: RankWindow::Cumulative,
        }
    }

    /// The interface that is watched.
    pub fn active_interface(&self) -> (interface: Option<&str>)
        ensures
            crate::text::optional_view(interface) == self.watched(),
    {
        match &self.active {
            Some(active) => Some(active.interface.as_str()),
            None => None,
        }
    }

    /// The interface that a selector selects: by name, else by its number from one.
    pub fn resolve_selector(&self, selector: &str) -> (name: Result<&str, SelectError>)
        ensures
            match selected(selector@, interface_names(self.interfaces@)) {
                Ok(place) => {
                    &&& 0 <= place < self.interfaces@.len()
                    &&& name matches Ok(name)
                    &&& name@ == self.interfaces@[place].name@
                },
                Err(failure) => name matches Err(error) && error.selector@ == selector@
                    && error.failure == failure,
            },
    {
        let mut names: Vec<String> = Vec::new();
        let mut i: usize = 0;
        while i < self.interfaces.len()
            invariant
                i <= self.interfaces@.len(),
                names@.len() == i,
                forall|k: int| 0 <= k < i ==> (#[trigger] names@[k])@ == self.interfaces@[k].name@,
            decreases self.interfaces@.len() - i,
        {
            names.push(self.interfaces[i].name.clone());
            i += 1;
        }
        assert(name_views(names@) =~= interface_names(self.interfaces@));
        match select_name(selector, &names) {
            Ok(at) => Ok(self.interfaces[at].name.as_str()),
            Err(error) => Err(error),
        }
    }

    /// What a request to change the interface asks for.
    pub fn plan_activation(&self, selector: &str) -> (plan: Result<ActivationPlan, SessionError>)
        ensures
            match selected(selector@, interface_names(self.interfaces@)) {
                Err(failure) => plan matches Err(SessionError::Selector(error)) && error.selector@
                    == selector@ && error.failure == failure,
                Ok(_) => if self.chosen(selector@) == self.watched() {
                    plan == Ok::<ActivationPlan, SessionError>(ActivationPlan::Unchanged)
                } else {
                    plan matches Ok(ActivationPlan::Open(name)) && Some(name@) == self.chosen(
                        selector@,
                    )
                },
            },
    {
        let interface = match self.resolve_selector(selector) {
            Ok(interface) => interface,
            Err(error) => {
                return Err(SessionError::Selector(error));
            },
        };
        let unchanged = match self.active_interface() {
            Some(active) => same_text(active, interface),
            None => false,
        };
        if unchanged {
            Ok(ActivationPlan::Unchanged)
        } else {
            Ok(ActivationPlan::Open(interface.to_owned()))
        }
    }

    /// What a request to change the interface without waiting asks for: only one change is
    /// made at a time.
    pub fn begin_activate(&self, selector: &str) -> (plan: Result<ActivationPlan, SessionError>)
        ensures
            match selected(selector@, interface_names(self.interfaces@)) {
                Err(failure) => plan matches Err(SessionError::Selector(error)) && error.selector@
                    == selector@ && error.failure == failure,
                Ok(_) => if self.chosen(selector@) == self.watched() {
                    plan == Ok::<ActivationPlan, SessionError>(ActivationPlan::Unchanged)
                } else if self.pending is Some {
                    plan == Err::<ActivationPlan, SessionError>(SessionError::AlreadyPending)
                } else {
                    plan matches Ok(ActivationPlan::Open(name)) && Some(name@) == self.chosen(
                        selector@,
                    )
                },
            },
    {
        match self.plan_activation(selector) {
            Ok(ActivationPlan::Open(interface)) => {
                if self.pending.is_some() {
                    Err(SessionError::AlreadyPending)
                } else {
                    Ok(ActivationPlan::Open(interface))
                }
            },
            other => other,
        }
    }

    /// The worker that opens an interface has started; a capture that still waits for its
    /// first result is not taken back any more.
    pub fn activation_started(&mut self, interface: String) -> (outcome: Activation)
        ensures
            outcome == Activation::Pending,
            final(self).interfaces == old(self).interfaces,
            final(self).active == old(self).active,
            final(self).fallback is None,
            final(self).pending == Some(interface),
            final(self).rank_window == old(self).rank_window,
    {
        self.fallback = None;
        self.pending = Some(interface);
        Activation::Pending
    }

    /// An interface was opened while the caller waited: it takes the place of the current
    /// one, which stays if it was not.
    pub fn activate(&mut self, interface: String, opened: Result<H, String>) -> (outcome: Result<
        Activation,
        SessionError,
    >)
        ensures
            final(self).interfaces == old(self).interfaces,
            final(self).fallback == old(self).fallback,
            final(self).pending == old(self).pending,
            match opened {
                Ok(pipeline) => {
                    &&& outcome == Ok::<Activation, SessionError>(Activation::Activated)
                    &&& final(self).active == Some(ActiveCapture { interface, pipeline })
                    &&& final(self).rank_window == RankWindow::Cumulative
                },
                Err(message) => {
                    &&& outcome == Err::<Activation, SessionError>(SessionError::Failed(message))
                    &&& final(self).active == old(self).active
                    &&& final(self).rank_window == old(self).rank_window
                },
            },
    {
        match opened {
            Ok(pipeline) => {
                self.active = Some(ActiveCapture { interface, pipeline });
                self.rank_window = RankWindow::Cumulative;
                Ok(Activation::Activated)
            },
            Err(message) => Err(SessionError::Failed(message)),
        }
    }

    /// The session once the interface that was being opened is open.
    pub open spec fn opened(self, pipeline: H, readiness: CaptureReadiness) -> Self {
        TrafficSession {
            active: Some(ActiveCapture { interface: self.pending->0, pipeline }),
            fallback: if readiness == CaptureReadiness::Waiting {
                self.active
            } else {
                self.fallback
            },
            pending: None,
            rank_window: RankWindow::Cumulative,
            ..self
        }
    }

    /// The session once the first result of a new capture was heard of.
    pub open spec fn heard(self, heard: Option<Result<CaptureReadiness, PipelineError>>) -> Self {
        if self.active is None || self.fallback is None {
            self
        } else {
            match heard {
                Some(Ok(CaptureReadiness::Ready)) => TrafficSession { fallback: None, ..self },
                Some(Err(_)) => TrafficSession { active: self.fallback, fallback: None, ..self },
                _ => self,
            }
        }
    }

    /// What came of the change that is under way. The current capture stays if the new one
    /// could not be opened; it is kept to come back if the new one has not given a first
    /// result.
    pub fn poll_activation(&mut self, opened: Opened<H>) -> (outcome: Option<
        Result<Activation, SessionError>,
    >)
        ensures
            old(self).pending is None || opened is Nothing ==> outcome is None && *final(self)
                == *old(self),
            old(self).pending is Some ==> match opened {
                Opened::Nothing => true,
                Opened::WorkerGone => {
                    &&& outcome == Some(
                        Err::<Activation, SessionError>(SessionError::WorkerGone),
                    )
                    &&& *final(self) == (TrafficSession { pending: None, ..*old(self) })
                },
                Opened::Failed(message) => {
                    &&& outcome == Some(
                        Err::<Activation, SessionError>(SessionError::Failed(message)),
                    )
                    &&& *final(self) == (TrafficSession { pending: None, ..*old(self) })
                },
                Opened::Done(pipeline, readiness) => {
                    &&& outcome == Some(Ok::<Activation, SessionError>(Activation::Activated))
                    &&& *final(self) == old(self).opened(pipeline, readiness)
                },
            },
    {
        if self.pending.is_none() {
            return None;
        }
        match opened {
            Opened::Nothing => None,
            Opened::WorkerGone => {
                self.pending = None;
                Some(Err(SessionError::WorkerGone))
            },
            Opened::Failed(message) => {
                self.pending = None;
                Some(Err(SessionError::Failed(message)))
            },
            Opened::Done(pipeline, readiness) => {
                let mut interface: Option<String> = None;
                std::mem::swap(&mut interface, &mut self.pending);
                let mut previous = match interface {
                    Some(interface) => Some(ActiveCapture { interface, pipeline }),
                    None => None,
                };
                std::mem::swap(&mut previous, &mut self.active);
                if readiness == CaptureReadiness::Waiting {
                    self.fallback = previous;
                }
                self.rank_window = RankWindow::Cumulative;
                Some(Ok(Activation::Activated))
            },
        }
    }

    /// What was heard of the first result of a new capture: with one, the previous capture
    /// is let go; with a failure, it comes back.
    pub fn poll_capture_readiness(
        &mut self,
        heard: Option<Result<CaptureReadiness, PipelineError>>,
    ) -> (failure: Option<PipelineError>)
        ensures
            *final(self) == old(self).heard(heard),
            failure == match heard {
                Some(Err(error)) => if old(self).active is Some && old(self).fallback is Some {
                    Some(error)
                } else {
                    None
                },
                _ => None,
            },
    {
        if self.active.is_none() || self.fallback.is_none() {
            return None;
        }
        match heard {
            Some(Ok(CaptureReadiness::Ready)) => {
                self.fallback = None;
                None
            },
            Some(Err(error)) => {
                let mut fallback: Option<ActiveCapture<H>> = None;
                std::mem::swap(&mut fallback, &mut self.fallback);
                self.active = fallback;
                Some(error)
            },
            _ => None,
        }
    }
}

/// A change whose capture fails on its first read brings the previous capture back.
pub proof fn lemma_failed_first_read_restores_the_capture<H>(
    session: TrafficSession<H>,
    pipeline: H,
    error: PipelineError,
)
    requires
        session.active is Some,
        session.pending is Some,
    ensures
        ({
            let after = session.opened(pipeline, CaptureReadiness::Waiting).heard(Some(Err(error)));
            &&& after.active == session.active
            &&& after.fallback is None
            &&& after.pending is None
            &&& after.interfaces == session.interfaces
        }),
{
}

/// A capture that has given its first result is not taken back for a later failure.
pub proof fn lemma_working_capture_stays<H>(
    session: TrafficSession<H>,
    pipeline: H,
    error: PipelineError,
)
    requires
        session.active is Some,
        session.pending is Some,
    ensures
        ({
            let working = session.opened(pipeline, CaptureReadiness::Waiting).heard(
                Some(Ok(CaptureReadiness::Ready)),
            );
            working.heard(Some(Err(error))) == working && working.active->0.pipeline == pipeline
        }),
{
}

} // verus!
