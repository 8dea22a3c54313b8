use linkerd_policy_core::policy::{find, Filter, Meta, RoutePolicy};
use linkerd_policy_core::route_match::Request;
use linkerd_policy_core::tcp::{
    on_event, AuthorizeTcp, AuthzError, Event, NewTcpPolicy, Observation, Step,
};

#[derive(Clone, Debug, PartialEq)]
struct Permit(&'static str);

#[derive(Clone, Debug, PartialEq)]
struct Deny(&'static str);

#[derive(Debug, PartialEq)]
struct Inner {
    permit: Permit,
    client: u32,
}

fn maker() -> NewTcpPolicy<impl Fn(&Permit, &u32) -> Inner> {
    NewTcpPolicy::new(|p: &Permit, t: &u32| Inner {
        permit: p.clone(),
        client: *t,
    })
}

#[test]
fn authorized_connection_builds_inner_and_allows() {
    let new = maker();
    let (svc, obs) = new.new_service::<u32, Permit, Deny, Inner>(7, Ok(Permit("p")));
    assert_eq!(obs, Observation::Allow(Permit("p")));
    match &svc {
        AuthorizeTcp::Authorized(a) => {
            assert_eq!(a.target, 7);
            assert_eq!(
                a.inner,
                Inner {
                    permit: Permit("p"),
                    client: 7
                }
            );
        }
        AuthorizeTcp::Unauthorized(_) => panic!("must be authorized"),
    }
    assert!(svc.poll_ready().is_ok());
    let served = svc.call();
    assert_eq!(served.target, 7);
}

#[test]
fn denied_connection_fails_readiness_and_observes_once() {
    let new = maker();
    let (svc, obs) = new.new_service::<u32, Permit, Deny, Inner>(7, Err(Deny("no")));
    assert_eq!(obs, Observation::Deny);
    // Polling again observes nothing more and keeps failing.
    for _ in 0..3 {
        assert_eq!(svc.poll_ready().err(), Some(&Deny("no")));
    }
    assert!(matches!(svc, AuthorizeTcp::Unauthorized(Deny("no"))));
}

#[test]
fn events_decide_the_connection() {
    let r = on_event::<Permit, Deny, &str>(Event::PolicyChanged(Ok(Permit("still"))));
    assert_eq!(r, (Step::Continue, None));
    let r = on_event::<Permit, Deny, &str>(Event::PolicyChanged(Err(Deny("revoked"))));
    assert_eq!(
        r,
        (
            Step::Finish(Err(AuthzError::Denied(Deny("revoked")))),
            Some(Observation::Terminate)
        )
    );
    let r = on_event::<Permit, Deny, &str>(Event::Completed(Ok(())));
    assert_eq!(r, (Step::Finish(Ok(())), None));
    let r = on_event::<Permit, Deny, &str>(Event::Completed(Err("io")));
    assert_eq!(r, (Step::Finish(Err(AuthzError::Inner("io"))), None));
}

#[test]
fn revocation_after_preserving_changes_terminates_once() {
    let checks: Vec<Result<Permit, Deny>> = vec![
        Ok(Permit("a")),
        Ok(Permit("b")),
        Err(Deny("gone")),
        Ok(Permit("c")),
    ];
    let mut terminations = 0;
    let mut outcome = None;
    for c in checks {
        let (step, obs) = on_event::<Permit, Deny, ()>(Event::PolicyChanged(c));
        if obs == Some(Observation::Terminate) {
            terminations += 1;
        }
        if let Step::Finish(out) = step {
            outcome = Some(out);
            break;
        }
    }
    assert_eq!(terminations, 1);
    assert_eq!(outcome, Some(Err(AuthzError::Denied(Deny("gone")))));
}

#[test]
fn default_route_matches_everything() {
    let routes = vec![linkerd_policy_core::policy::default(vec!["all-authenticated"])];
    let req = Request {
        host: Some(b"anything".to_vec()),
        path: b"/any/path".to_vec(),
        ..Request::default()
    };
    let (m, policy) = find(&routes, &req).expect("must match");
    assert_eq!(m.host, None);
    assert_eq!(policy.authorizations, vec!["all-authenticated"]);
    assert_eq!(
        policy.meta,
        Meta::Default {
            name: "default".to_string()
        }
    );
    assert!(policy.filters.is_empty());
    assert!(policy.filters_known());
}

#[test]
fn unknown_filter_is_flagged() {
    let policy = RoutePolicy::<u8> {
        meta: Meta::Default {
            name: "x".to_string(),
        },
        authorizations: vec![],
        filters: vec![Filter::Unknown],
    };
    assert!(!policy.filters_known());
}
