//! Per-connection authorization: a connection is checked against the policy
//! once when it is accepted, and again each time the policy changes while it
//! is served; a failed re-check ends the connection.
use vstd::prelude::*;

verus! {

/// Builds a connection service for each accepted connection. `inner` makes
/// the inner service from the permit and the connection's target.
#[derive(Clone, Debug, PartialEq, Eq)]
pub struct NewTcpPolicy<N> {
    pub inner: N,
}

/// A connection's service: authorized with its inner service, or refused
/// with the denial.
#[derive(Clone, Debug, PartialEq, Eq)]
pub enum AuthorizeTcp<S, T, D> {
    Authorized(Authorized<S, T>),
    Unauthorized(D),
}

#[derive(Clone, Debug, PartialEq, Eq)]
pub struct Authorized<S, T> {
    pub inner: S,
    /// What the connection was authorized for (policy, client, TLS state);
    /// every re-check uses the same.
    pub target: T,
}

/// An observation for the metrics sink.
#[derive(Clone, Debug, PartialEq, Eq)]
pub enum Observation<P> {
    /// The connection was authorized by this permit.
    Allow(P),
    /// The connection was refused when it was accepted.
    Deny,
    /// The connection was ended by a policy change.
    Terminate,
}

/// Why a served connection ended in failure.
#[derive(Clone, Debug, PartialEq, Eq)]
pub enum AuthzError<D, E> {
    /// The policy no longer authorizes the connection.
    Denied(D),
    /// The inner service failed.
    Inner(E),
}

/// What happened while a connection was served.
#[derive(Debug, PartialEq, Eq)]
pub enum Event<P, D, E> {
    /// The inner service finished with this result.
    Completed(Result<(), E>),
    /// The policy changed and the connection was checked again.
    PolicyChanged(Result<P, D>),
}

/// What to do next with a served connection.
#[derive(Debug, PartialEq, Eq)]
pub enum Step<D, E> {
    /// Keep serving, and wait for the next event.
    Continue,
    /// Stop with this outcome; the inner service is dropped if still running.
    Finish(Result<(), AuthzError<D, E>>),
}

impl<N> NewTcpPolicy<N> {
    pub fn new(inner: N) -> (r: Self)
        ensures
            r.inner == inner,
    {
        NewTcpPolicy { inner }
    }

    /// Decides a new connection from the outcome of its one authorization
    /// check. A permitted connection gets its inner service, built from the
    /// permit and the target, and is observed as allowed; a denied one gets no
    /// inner service and is observed as denied.
    pub fn new_service<T, P, D, S>(&self, target: T, check: Result<P, D>) -> (r: (AuthorizeTcp<S, T, D>, Observation<P>))
        where
            N: Fn(&P, &T) -> S,
        requires
            forall|p: &P, t: &T| self.inner.requires((p, t)),
        ensures
            match check {
                Ok(p) => {
                    &&& r.1 == Observation::Allow(p)
                    &&& r.0 matches AuthorizeTcp::Authorized(a) && a.target == target && self.inner.ensures(
                        (&p, &target),
                        a.inner,
                    )
                },
                Err(d) => r.0 == AuthorizeTcp::<S, T, D>::Unauthorized(d) && r.1 == Observation::<P>::Deny,
            },
    {
        match check {
            Ok(permit) => {
                let inner = (self.inner)(&permit, &target);
                (AuthorizeTcp::Authorized(Authorized { inner, target }), Observation::Allow(permit))
            },
            Err(deny) => (AuthorizeTcp::Unauthorized(deny), Observation::Deny),
        }
    }
}

impl<S, T, D> AuthorizeTcp<S, T, D> {
    /// Readiness: a refused connection fails at once with its denial, and is
    /// never served; an authorized one is as ready as its inner service.
    pub fn poll_ready(&self) -> (r: Result<&S, &D>)
        ensures
            match *self {
                AuthorizeTcp::Authorized(a) => r == Ok::<&S, &D>(&a.inner),
                AuthorizeTcp::Unauthorized(d) => r == Err::<&S, &D>(&d),
            },
    {
        match self {
            AuthorizeTcp::Authorized(a) => Ok(&a.inner),
            AuthorizeTcp::Unauthorized(d) => Err(d),
        }
    }

    /// Starts serving the connection: hands back the inner service to invoke
    /// and the target to re-check against. Only an authorized connection,
    /// one that was ready, is ever served.
    pub fn call(self) -> (r: Authorized<S, T>)
        requires
            self is Authorized,
        ensures
            self == AuthorizeTcp::<S, T, D>::Authorized(r),
    {
        match self {
            AuthorizeTcp::Authorized(a) => a,
            AuthorizeTcp::Unauthorized(_) => vstd::pervasive::unreached(),
        }
    }
}

/// The decision for one event of a served connection.
pub open spec fn next_step<P, D, E>(event: Event<P, D, E>) -> (Step<D, E>, Option<Observation<P>>) {
    match event {
        Event::Completed(Ok(())) => (Step::Finish(Ok(())), None),
        Event::Completed(Err(e)) => (Step::Finish(Err(AuthzError::Inner(e))), None),
        Event::PolicyChanged(Ok(_)) => (Step::Continue, None),
        Event::PolicyChanged(Err(d)) => (Step::Finish(Err(AuthzError::Denied(d))), Some(Observation::Terminate)),
    }
}

/// Decides what follows an event of a served connection: the inner
/// service's result ends the connection with that result; a policy change
/// that still authorizes it changes nothing; one that no longer does ends it
/// with the denial and is observed as a termination.
pub fn on_event<P, D, E>(event: Event<P, D, E>) -> (r: (Step<D, E>, Option<Observation<P>>))
    ensures
        r == next_step(event),
{
    match event {
        Event::Completed(Ok(())) => (Step::Finish(Ok(())), None),
        Event::Completed(Err(e)) => (Step::Finish(Err(AuthzError::Inner(e))), None),
        Event::PolicyChanged(Ok(_)) => (Step::Continue, None),
        Event::PolicyChanged(Err(d)) => (Step::Finish(Err(AuthzError::Denied(d))), Some(Observation::Terminate)),
    }
}

/// Serving a connection through `events`: the outcome once it has finished
/// (`None` while it is still served) and the number of terminations observed.
/// Events after the connection finished are never seen.
pub open spec fn serve<P, D, E>(events: Seq<Event<P, D, E>>) -> (Option<Result<(), AuthzError<D, E>>>, nat)
    decreases events.len(),
{
    if events.len() == 0 {
        (None, 0)
    } else {
        let prev = serve(events.drop_last());
        if prev.0 is Some {
            prev
        } else {
            let (step, obs) = next_step(events.last());
            let count = if obs is Some {
                prev.1 + 1
            } else {
                prev.1
            };
            match step {
                Step::Continue => (None, count),
                Step::Finish(out) => (Some(out), count),
            }
        }
    }
}

/// Policy changes while a connection is served: as long as every re-check
/// authorizes the connection it stays open and no termination is observed;
/// at the first re-check that denies it, it ends with that denial and exactly
/// one termination is observed, whatever comes after.
pub proof fn lemma_policy_changes<P, D, E>(events: Seq<Event<P, D, E>>)
    requires
        forall|i: int| 0 <= i < events.len() ==> (#[trigger] events[i]) is PolicyChanged,
    ensures
        (forall|i: int| 0 <= i < events.len() ==> (#[trigger] events[i])->PolicyChanged_0 is Ok) ==> serve(events) == (
        None::<Result<(), AuthzError<D, E>>>, 0nat),
        forall|k: int|
            0 <= k < events.len() && (#[trigger] events[k])->PolicyChanged_0 is Err && (forall|i: int|
                0 <= i < k ==> (#[trigger] events[i])->PolicyChanged_0 is Ok) ==> serve(events) == (
            Some(Err::<(), AuthzError<D, E>>(AuthzError::Denied(events[k]->PolicyChanged_0->Err_0))), 1nat),
    decreases events.len(),
{
    if events.len() > 0 {
        let init = events.drop_last();
        assert forall|i: int| 0 <= i < init.len() implies #[trigger] init[i] == events[i] by {}
        lemma_policy_changes(init);
        assert forall|k: int|
            0 <= k < events.len() && (#[trigger] events[k])->PolicyChanged_0 is Err && (forall|i: int|
                0 <= i < k ==> (#[trigger] events[i])->PolicyChanged_0 is Ok) implies serve(events) == (
            Some(Err::<(), AuthzError<D, E>>(AuthzError::Denied(events[k]->PolicyChanged_0->Err_0))), 1nat) by {
            if k < events.len() - 1 {
                assert(init[k] == events[k]);
                assert(forall|i: int| 0 <= i < k ==> init[i] == events[i]);
            } else {
                assert(forall|i: int| 0 <= i < init.len() ==> (#[trigger] init[i])->PolicyChanged_0 is Ok);
            }
        }
        if forall|i: int| 0 <= i < events.len() ==> (#[trigger] events[i])->PolicyChanged_0 is Ok {
            assert(forall|i: int| 0 <= i < init.len() ==> (#[trigger] init[i])->PolicyChanged_0 is Ok);
        }
    }
}

} // verus!
