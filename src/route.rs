//! Route tables: selecting the single most specific rule for a request, the
//! first one listed winning any tie.
use vstd::prelude::*;

use crate::route_match::{
    default_request_match, host_lt, host_match, request_lt, request_match, HostMatch, MatchHost,
    MatchRequest, Request, RequestMatch,
};

verus! {

#[derive(Clone, Debug, Default, PartialEq, Eq, Hash)]
pub struct HttpRoute<T> {
    /// Hosts the route applies to; an empty list applies to every host.
    pub hosts: Vec<MatchHost>,
    pub rules: Vec<HttpRule<T>>,
}

#[derive(Clone, Debug, Default, PartialEq, Eq, Hash)]
pub struct HttpRule<T> {
    /// Matchers of the rule; an empty list matches every request.
    pub matches: Vec<MatchRequest>,
    pub policy: T,
}

/// The rank of a route's match: the host rank first, then the request rank.
#[derive(Clone, Copy, Debug, PartialEq, Eq, Hash)]
pub struct HttpRouteMatch {
    pub host: Option<HostMatch>,
    pub request: RequestMatch,
}

// === selection ===

/// The best candidate and its index: scanning left to right, a later
/// candidate replaces the current one only when it ranks strictly higher.
pub open spec fn pick<K>(cands: Seq<Option<K>>, lt: spec_fn(K, K) -> bool) -> Option<(K, int)>
    decreases cands.len(),
{
    if cands.len() == 0 {
        None
    } else {
        let prev = pick(cands.drop_last(), lt);
        match cands.last() {
            None => prev,
            Some(k) => match prev {
                None => Some((k, cands.len() - 1)),
                Some(p) => if lt(p.0, k) {
                    Some((k, cands.len() - 1))
                } else {
                    Some(p)
                },
            },
        }
    }
}

pub open spec fn is_order<K>(lt: spec_fn(K, K) -> bool) -> bool {
    &&& forall|a: K, b: K, c: K| #[trigger] lt(a, b) && #[trigger] lt(b, c) ==> lt(a, c)
    &&& forall|a: K, b: K| #[trigger] lt(a, b) ==> !lt(b, a)
    &&& forall|a: K, b: K, c: K| !#[trigger] lt(a, b) && #[trigger] lt(a, c) ==> lt(b, c)
}

/// What `pick` selects: nothing when there is no candidate; otherwise a
/// candidate that no other candidate outranks, and that strictly outranks
/// every candidate before it.
pub open spec fn first_best<K>(cands: Seq<Option<K>>, lt: spec_fn(K, K) -> bool, r: Option<(K, int)>) -> bool {
    match r {
        None => forall|j: int| 0 <= j < cands.len() ==> (#[trigger] cands[j]) is None,
        Some((k, i)) => {
            &&& 0 <= i < cands.len()
            &&& cands[i] == Some(k)
            &&& forall|j: int| 0 <= j < cands.len() && (#[trigger] cands[j]) is Some ==> !lt(k, cands[j]->Some_0)
            &&& forall|j: int| 0 <= j < i && (#[trigger] cands[j]) is Some ==> lt(cands[j]->Some_0, k)
        },
    }
}

/// Picking the best candidate finds the first of the highest-ranked ones.
pub proof fn lemma_pick_first_best<K>(cands: Seq<Option<K>>, lt: spec_fn(K, K) -> bool)
    requires
        is_order(lt),
    ensures
        first_best(cands, lt, pick(cands, lt)),
    decreases cands.len(),
{
    if cands.len() > 0 {
        let n = cands.len() - 1;
        let init = cands.drop_last();
        lemma_pick_first_best(init, lt);
        assert(init.len() == n);
        assert forall|j: int| 0 <= j < n implies #[trigger] cands[j] == init[j] by {}
        let prev = pick(init, lt);
        match cands[n] {
            None => {
                match prev {
                    None => {
                        assert forall|j: int| 0 <= j < cands.len() implies (#[trigger] cands[j]) is None by {
                            if j < n {
                                assert(init[j] is None);
                            }
                        }
                    },
                    Some(p) => {
                        assert forall|j: int| 0 <= j < cands.len() && (#[trigger] cands[j]) is Some implies !lt(p.0, cands[j]->Some_0) by {
                            if j < n {
                                assert(init[j] == cands[j]);
                            }
                        }
                        assert forall|j: int| 0 <= j < p.1 && (#[trigger] cands[j]) is Some implies lt(cands[j]->Some_0, p.0) by {
                            assert(init[j] == cands[j]);
                        }
                    },
                }
            },
            Some(k) => match prev {
                None => {
                    assert forall|j: int| 0 <= j < cands.len() && (#[trigger] cands[j]) is Some implies !lt(k, cands[j]->Some_0) by {
                        if j < n {
                            assert(init[j] is None);
                        } else {
                            assert(cands[j] == Some(k));
                        }
                    }
                },
                Some(p) => {
                    if lt(p.0, k) {
                        assert forall|j: int| 0 <= j < cands.len() && (#[trigger] cands[j]) is Some implies !lt(k, cands[j]->Some_0) by {
                            if j < n {
                                assert(init[j] == cands[j]);
                                assert(!lt(p.0, cands[j]->Some_0));
                            }
                        }
                        assert forall|j: int| 0 <= j < n && (#[trigger] cands[j]) is Some implies lt(cands[j]->Some_0, k) by {
                            assert(init[j] == cands[j]);
                            let c = cands[j]->Some_0;
                            if j > p.1 {
                                assert(!lt(p.0, c));
                                assert(lt(p.0, k));
                            }
                        }
                    } else {
                        assert forall|j: int| 0 <= j < cands.len() && (#[trigger] cands[j]) is Some implies !lt(p.0, cands[j]->Some_0) by {
                            if j < n {
                                assert(init[j] == cands[j]);
                            }
                        }
                        assert forall|j: int| 0 <= j < p.1 && (#[trigger] cands[j]) is Some implies lt(cands[j]->Some_0, p.0) by {
                            assert(init[j] == cands[j]);
                        }
                    }
                },
            },
        }
    }
}

/// A step of a left-to-right scan is one more step of `pick`.
proof fn lemma_pick_take<K>(cands: Seq<Option<K>>, lt: spec_fn(K, K) -> bool, i: int)
    requires
        0 <= i < cands.len(),
    ensures
        pick(cands.take(i + 1), lt) == (match cands[i] {
            None => pick(cands.take(i), lt),
            Some(k) => match pick(cands.take(i), lt) {
                None => Some((k, i)),
                Some(p) => if lt(p.0, k) {
                    Some((k, i))
                } else {
                    Some(p)
                },
            },
        }),
{
    assert(cands.take(i + 1).drop_last() =~= cands.take(i));
}

// === ranks ===

pub open spec fn host_option_lt(a: Option<HostMatch>, b: Option<HostMatch>) -> bool {
    match (a, b) {
        (None, Some(_)) => true,
        (Some(x), Some(y)) => host_lt(x, y),
        _ => false,
    }
}

/// Route ranks: the host rank dominates, the request rank breaks host ties.
pub open spec fn route_lt(a: HttpRouteMatch, b: HttpRouteMatch) -> bool {
    host_option_lt(a.host, b.host) || (a.host == b.host && request_lt(a.request, b.request))
}

pub open spec fn host_order() -> spec_fn(HostMatch, HostMatch) -> bool {
    |a: HostMatch, b: HostMatch| host_lt(a, b)
}

pub open spec fn request_order() -> spec_fn(RequestMatch, RequestMatch) -> bool {
    |a: RequestMatch, b: RequestMatch| request_lt(a, b)
}

pub open spec fn route_order() -> spec_fn((HttpRouteMatch, int), (HttpRouteMatch, int)) -> bool {
    |a: (HttpRouteMatch, int), b: (HttpRouteMatch, int)| route_lt(a.0, b.0)
}

/// Host, request and route ranks are each ordered.
pub proof fn lemma_orders()
    ensures
        is_order(host_order()),
        is_order(request_order()),
        is_order(route_order()),
{
    assert forall|a: HostMatch, b: HostMatch, c: HostMatch| host_lt(a, b) && host_lt(b, c) implies host_lt(a, c) by {}
    assert forall|a: HostMatch, b: HostMatch, c: HostMatch| !host_lt(a, b) && host_lt(a, c) implies host_lt(b, c) by {}
    assert forall|a: RequestMatch, b: RequestMatch, c: RequestMatch| request_lt(a, b) && request_lt(b, c) implies request_lt(a, c) by {}
    assert forall|a: RequestMatch, b: RequestMatch, c: RequestMatch| !request_lt(a, b) && request_lt(a, c) implies request_lt(b, c) by {}
    assert forall|a: RequestMatch, b: RequestMatch| request_lt(a, b) implies !request_lt(b, a) by {}
    assert forall|a: HttpRouteMatch, b: HttpRouteMatch, c: HttpRouteMatch| route_lt(a, b) && route_lt(b, c) implies route_lt(a, c) by {}
    assert forall|a: HttpRouteMatch, b: HttpRouteMatch, c: HttpRouteMatch| !route_lt(a, b) && route_lt(a, c) implies route_lt(b, c) by {}
    assert forall|a: HttpRouteMatch, b: HttpRouteMatch| route_lt(a, b) implies !route_lt(b, a) by {}
}

pub open spec fn host_view(req: Request) -> Option<Seq<u8>> {
    match req.host {
        Some(h) => Some(h@),
        None => None,
    }
}

pub open spec fn host_cands(hosts: Seq<MatchHost>, req: Request) -> Seq<Option<HostMatch>> {
    hosts.map_values(|h: MatchHost| host_match(h, host_view(req)))
}

pub open spec fn matcher_cands(ms: Seq<MatchRequest>, req: Request) -> Seq<Option<RequestMatch>> {
    ms.map_values(|m: MatchRequest| request_match(m, req))
}

/// The rank of a rule: the default rank when it has no matchers, else the
/// best rank among its matchers that apply.
pub open spec fn rule_match<T>(rule: HttpRule<T>, req: Request) -> Option<RequestMatch> {
    if rule.matches@.len() == 0 {
        Some(default_request_match())
    } else {
        match pick(matcher_cands(rule.matches@, req), request_order()) {
            None => None,
            Some(p) => Some(p.0),
        }
    }
}

pub open spec fn rule_cands<T>(rules: Seq<HttpRule<T>>, req: Request) -> Seq<Option<RequestMatch>> {
    rules.map_values(|r: HttpRule<T>| rule_match(r, req))
}

/// The host part of a route's rank: `Some(None)` for a route without hosts,
/// `None` when the route has hosts and none applies.
pub open spec fn route_host<T>(route: HttpRoute<T>, req: Request) -> Option<Option<HostMatch>> {
    if route.hosts@.len() == 0 {
        Some(None)
    } else {
        match pick(host_cands(route.hosts@, req), host_order()) {
            None => None,
            Some(p) => Some(Some(p.0)),
        }
    }
}

/// A route's rank for the request with the index of its winning rule.
pub open spec fn route_match<T>(route: HttpRoute<T>, req: Request) -> Option<(HttpRouteMatch, int)> {
    match route_host(route, req) {
        None => None,
        Some(host) => match pick(rule_cands(route.rules@, req), request_order()) {
            None => None,
            Some(p) => Some((HttpRouteMatch { host, request: p.0 }, p.1)),
        },
    }
}

pub open spec fn route_cands<T>(routes: Seq<HttpRoute<T>>, req: Request) -> Seq<Option<(HttpRouteMatch, int)>> {
    routes.map_values(|rt: HttpRoute<T>| route_match(rt, req))
}

/// The selected rank, route index and rule index for a request.
pub open spec fn table_match<T>(routes: Seq<HttpRoute<T>>, req: Request) -> Option<(HttpRouteMatch, int, int)> {
    match pick(route_cands(routes, req), route_order()) {
        None => None,
        Some(p) => Some((p.0.0, p.1, p.0.1)),
    }
}

// === implementation ===

pub open spec fn picked_index<K>(best: Option<(K, usize)>) -> Option<(K, int)> {
    match best {
        None => None,
        Some((k, j)) => Some((k, j as int)),
    }
}

/// The best-ranked host pattern that applies to the request's host.
fn best_host(hosts: &Vec<MatchHost>, req: &Request) -> (r: Option<HostMatch>)
    ensures
        r == (match pick(host_cands(hosts@, *req), host_order()) {
            None => None,
            Some(p) => Some(p.0),
        }),
{
    let ghost cands = host_cands(hosts@, *req);
    let mut best: Option<(HostMatch, usize)> = None;
    let mut i: usize = 0;
    while i < hosts.len()
        invariant
            cands == host_cands(hosts@, *req),
            i <= hosts@.len(),
            picked_index(best) == pick(cands.take(i as int), host_order()),
        decreases hosts.len() - i,
    {
        proof {
            lemma_pick_take(cands, host_order(), i as int);
        }
        match hosts[i].summarize_match(&req.host) {
            None => {},
            Some(k) => match best {
                None => {
                    best = Some((k, i));
                },
                Some((b, _)) => {
                    if b.lt(&k) {
                        best = Some((k, i));
                    }
                },
            },
        }
        i = i + 1;
    }
    assert(cands.take(hosts@.len() as int) =~= cands);
    match best {
        None => None,
        Some((b, _)) => Some(b),
    }
}

impl<T> HttpRule<T> {
    /// The rule's rank for the request: the default rank when the rule has no
    /// matchers, else the best rank among the matchers that apply.
    pub fn summarize_match(&self, req: &Request) -> (r: Option<RequestMatch>)
        ensures
            r == rule_match(*self, *req),
    {
        if self.matches.len() == 0 {
            return Some(RequestMatch::default_match());
        }
        let ghost cands = matcher_cands(self.matches@, *req);
        let mut best: Option<(RequestMatch, usize)> = None;
        let mut i: usize = 0;
        while i < self.matches.len()
            invariant
                cands == matcher_cands(self.matches@, *req),
                i <= self.matches@.len(),
                picked_index(best) == pick(cands.take(i as int), request_order()),
            decreases self.matches.len() - i,
        {
            proof {
                lemma_pick_take(cands, request_order(), i as int);
            }
            match self.matches[i].summarize_match(req) {
                None => {},
                Some(k) => match best {
                    None => {
                        best = Some((k, i));
                    },
                    Some((b, _)) => {
                        if b.lt(&k) {
                            best = Some((k, i));
                        }
                    },
                },
            }
            i = i + 1;
        }
        assert(cands.take(self.matches@.len() as int) =~= cands);
        match best {
            None => None,
            Some((b, _)) => Some(b),
        }
    }
}

impl<T> HttpRoute<T> {
    /// The route's rank for the request with the policy of its best rule: the
    /// best host pattern must apply (unless the route has none), and among
    /// rules of equal rank the first listed wins.
    pub fn find(&self, req: &Request) -> (r: Option<(HttpRouteMatch, &T)>)
        ensures
            match route_match(*self, *req) {
                None => r is None,
                Some((m, j)) => 0 <= j < self.rules@.len() && (r matches Some((rm, p)) && rm == m && *p
                    == self.rules@[j].policy),
            },
    {
        let host = if self.hosts.len() == 0 {
            None
        } else {
            match best_host(&self.hosts, req) {
                None => return None,
                Some(h) => Some(h),
            }
        };
        let ghost cands = rule_cands(self.rules@, *req);
        let mut best: Option<(RequestMatch, usize)> = None;
        let mut i: usize = 0;
        while i < self.rules.len()
            invariant
                cands == rule_cands(self.rules@, *req),
                i <= self.rules@.len(),
                picked_index(best) == pick(cands.take(i as int), request_order()),
                best matches Some((_, j)) ==> j < i,
            decreases self.rules.len() - i,
        {
            proof {
                lemma_pick_take(cands, request_order(), i as int);
            }
            match self.rules[i].summarize_match(req) {
                None => {},
                Some(k) => match best {
                    None => {
                        best = Some((k, i));
                    },
                    Some((b, _)) => {
                        if b.lt(&k) {
                            best = Some((k, i));
                        }
                    },
                },
            }
            i = i + 1;
        }
        assert(cands.take(self.rules@.len() as int) =~= cands);
        match best {
            None => None,
            Some((b, j)) => Some((HttpRouteMatch { host, request: b }, &self.rules[j].policy)),
        }
    }
}

/// Selects, among all routes, the rule whose match ranks highest for the
/// request, and returns that rank with the rule's policy. Host rank dominates
/// request rank; on an exact tie the first route, then the first rule, wins.
/// `None` when no route applies.
pub fn find<'t, T>(routes: &'t [HttpRoute<T>], req: &Request) -> (r: Option<(HttpRouteMatch, &'t T)>)
    ensures
        match table_match(routes@, *req) {
            None => r is None,
            Some((m, i, j)) => 0 <= i < routes@.len() && 0 <= j < routes@[i].rules@.len() && (r matches Some((
                rm,
                p,
            )) && rm == m && *p == routes@[i].rules@[j].policy),
        },
{
    let ghost cands = route_cands(routes@, *req);
    let mut best: Option<(HttpRouteMatch, &'t T)> = None;
    let ghost mut best_at: (int, int) = (0, 0);
    let mut i: usize = 0;
    while i < routes.len()
        invariant
            cands == route_cands(routes@, *req),
            i <= routes@.len(),
            match pick(cands.take(i as int), route_order()) {
                None => best is None,
                Some((k, at)) => {
                    &&& best_at == (at, k.1)
                    &&& 0 <= at < i
                    &&& 0 <= k.1 < routes@[at].rules@.len()
                    &&& best matches Some((bm, bp)) && bm == k.0 && *bp == routes@[at].rules@[k.1].policy
                },
            },
        decreases routes.len() - i,
    {
        proof {
            lemma_pick_take(cands, route_order(), i as int);
        }
        let ghost prev = best_at;
        match routes[i].find(req) {
            None => {},
            Some((m, p)) => {
                let ghost j = route_match(routes@[i as int], *req)->Some_0.1;
                match best {
                    None => {
                        best = Some((m, p));
                        proof {
                            best_at = (i as int, j);
                        }
                    },
                    Some((b, _)) => {
                        if route_match_lt(&b, &m) {
                            best = Some((m, p));
                            proof {
                                best_at = (i as int, j);
                            }
                        }
                    },
                }
            },
        }
        i = i + 1;
    }
    assert(cands.take(routes@.len() as int) =~= cands);
    best
}

/// Compares route ranks: the host rank first, then the request rank.
pub fn route_match_lt(a: &HttpRouteMatch, b: &HttpRouteMatch) -> (r: bool)
    ensures
        r == route_lt(*a, *b),
{
    match (&a.host, &b.host) {
        (None, Some(_)) => true,
        (Some(_), None) => false,
        (Some(x), Some(y)) => {
            if x.lt(y) {
                true
            } else if y.lt(x) {
                false
            } else {
                a.request.lt(&b.request)
            }
        },
        (None, None) => a.request.lt(&b.request),
    }
}

} // verus!
