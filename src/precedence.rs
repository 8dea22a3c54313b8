//! Laws of route selection: ties go to the first listed, exact hosts beat
//! wildcards, exact paths beat prefixes, more header conditions beat fewer,
//! and a rule without matchers is the fallback of last resort.
use vstd::prelude::*;

use crate::route::{
    first_best, host_cands, host_order, host_view, lemma_orders, lemma_pick_first_best, pick,
    request_order, route_cands, route_host, route_lt, route_match, route_order, rule_cands,
    rule_match, table_match, HttpRoute, HttpRouteMatch, HttpRule,
};
use crate::route_match::{
    default_request_match, host_match, request_match, HostMatch, MatchHost, MatchPath, PathMatch,
    Request,
};

verus! {

/// The rank of a rule without matchers in a route without hosts.
pub open spec fn default_route_match() -> HttpRouteMatch {
    HttpRouteMatch { host: None, request: default_request_match() }
}

proof fn lemma_table_first_best<T>(routes: Seq<HttpRoute<T>>, req: Request)
    ensures
        first_best(route_cands(routes, req), route_order(), pick(route_cands(routes, req), route_order())),
{
    lemma_orders();
    lemma_pick_first_best(route_cands(routes, req), route_order());
}

/// A route that applies but ranks below another route that applies is never
/// selected.
pub proof fn lemma_outranked_route_loses<T>(routes: Seq<HttpRoute<T>>, req: Request, hi: int, lo: int)
    requires
        0 <= hi < routes.len(),
        0 <= lo < routes.len(),
        route_match(routes[hi], req) is Some,
        route_match(routes[lo], req) is Some,
        route_lt(route_match(routes[lo], req)->Some_0.0, route_match(routes[hi], req)->Some_0.0),
    ensures
        table_match(routes, req) is Some,
        table_match(routes, req)->Some_0.1 != lo,
{
    lemma_table_first_best(routes, req);
    let cands = route_cands(routes, req);
    assert(cands[hi] is Some);
    assert(cands[lo] is Some);
}

/// Among routes of equal rank the first listed is selected: a route that
/// ranks exactly as an earlier applicable route is never selected.
pub proof fn lemma_first_of_equal_routes_wins<T>(routes: Seq<HttpRoute<T>>, req: Request, first: int, later: int)
    requires
        0 <= first < later < routes.len(),
        route_match(routes[first], req) is Some,
        route_match(routes[later], req) is Some,
        route_match(routes[first], req)->Some_0.0 == route_match(routes[later], req)->Some_0.0,
    ensures
        table_match(routes, req) is Some,
        table_match(routes, req)->Some_0.1 != later,
{
    lemma_table_first_best(routes, req);
    let cands = route_cands(routes, req);
    assert(cands[first] is Some);
    assert(cands[later] is Some);
}

/// Within a route, among rules of equal rank the first listed is selected.
pub proof fn lemma_first_of_equal_rules_wins<T>(route: HttpRoute<T>, req: Request, first: int, later: int)
    requires
        0 <= first < later < route.rules@.len(),
        route_host(route, req) is Some,
        rule_match(route.rules@[first], req) is Some,
        rule_match(route.rules@[first], req) == rule_match(route.rules@[later], req),
    ensures
        route_match(route, req) is Some,
        route_match(route, req)->Some_0.1 != later,
{
    lemma_orders();
    let cands = rule_cands(route.rules@, req);
    lemma_pick_first_best(cands, request_order());
    assert(cands[first] is Some);
    assert(cands[later] is Some);
}

proof fn lemma_single_host(route_hosts: Seq<MatchHost>, req: Request)
    requires
        route_hosts.len() == 1,
        host_match(route_hosts[0], host_view(req)) is Some,
    ensures
        pick(host_cands(route_hosts, req), host_order()) == Some((host_match(route_hosts[0], host_view(req))->Some_0, 0int)),
{
    let cands = host_cands(route_hosts, req);
    assert(cands.drop_last() =~= Seq::<Option<HostMatch>>::empty());
    assert(pick(cands.drop_last(), host_order()) is None);
    assert(cands.last() == cands[0]);
    assert(cands[0] == host_match(route_hosts[0], host_view(req)));
}

/// A route naming the request's host exactly outranks a route whose rules
/// have the same matchers (their policies may differ) and whose wildcard
/// pattern matches the host: the wildcard route is never selected, in
/// whichever order the two are listed.
pub proof fn lemma_exact_host_preferred<T>(routes: Seq<HttpRoute<T>>, req: Request, exact: int, wildcard: int)
    requires
        0 <= exact < routes.len(),
        0 <= wildcard < routes.len(),
        routes[exact].rules@.len() == routes[wildcard].rules@.len(),
        forall|k: int|
            0 <= k < routes[exact].rules@.len() ==> (#[trigger] routes[exact].rules@[k]).matches
                == routes[wildcard].rules@[k].matches,
        routes[exact].hosts@.len() == 1,
        routes[exact].hosts@[0] is Exact,
        host_match(routes[exact].hosts@[0], host_view(req)) is Some,
        routes[wildcard].hosts@.len() == 1,
        routes[wildcard].hosts@[0] is Suffix,
        host_match(routes[wildcard].hosts@[0], host_view(req)) is Some,
        pick(rule_cands(routes[exact].rules@, req), request_order()) is Some,
    ensures
        table_match(routes, req) is Some,
        table_match(routes, req)->Some_0.1 != wildcard,
{
    lemma_single_host(routes[exact].hosts@, req);
    lemma_single_host(routes[wildcard].hosts@, req);
    assert(rule_cands(routes[exact].rules@, req) =~= rule_cands(routes[wildcard].rules@, req)) by {
        assert forall|k: int| 0 <= k < routes[exact].rules@.len() implies rule_match(
            #[trigger] routes[exact].rules@[k],
            req,
        ) == rule_match(routes[wildcard].rules@[k], req) by {
            assert(routes[exact].rules@[k].matches == routes[wildcard].rules@[k].matches);
        }
    }
    lemma_outranked_route_loses(routes, req, exact, wildcard);
}

proof fn lemma_single_matcher<T>(route: HttpRoute<T>, req: Request)
    requires
        route.rules@.len() == 1,
        route.rules@[0].matches@.len() == 1,
        request_match(route.rules@[0].matches@[0], req) is Some,
        route_host(route, req) is Some,
    ensures
        route_match(route, req) == Some((
            HttpRouteMatch {
                host: route_host(route, req)->Some_0,
                request: request_match(route.rules@[0].matches@[0], req)->Some_0,
            },
            0int,
        )),
{
    let rule = route.rules@[0];
    let mc = crate::route::matcher_cands(rule.matches@, req);
    assert(mc.drop_last() =~= Seq::<Option<crate::route_match::RequestMatch>>::empty());
    assert(pick(mc.drop_last(), request_order()) is None);
    assert(mc.last() == mc[0]);
    assert(mc[0] == request_match(rule.matches@[0], req));
    assert(rule_match(rule, req) == mc[0]);
    let rc = rule_cands(route.rules@, req);
    assert(rc.drop_last() =~= Seq::<Option<crate::route_match::RequestMatch>>::empty());
    assert(pick(rc.drop_last(), request_order()) is None);
    assert(rc.last() == rc[0]);
    assert(rc[0] == rule_match(rule, req));
}

/// Of two routes with the same host patterns and one single-matcher rule
/// each, both applying, the one whose matcher has an exact path outranks the
/// one whose matcher has a path prefix: the prefix route is never selected.
pub proof fn lemma_exact_path_preferred<T>(routes: Seq<HttpRoute<T>>, req: Request, exact: int, prefix: int)
    requires
        0 <= exact < routes.len(),
        0 <= prefix < routes.len(),
        routes[exact].hosts@ == routes[prefix].hosts@,
        route_host(routes[exact], req) is Some,
        routes[exact].rules@.len() == 1,
        routes[exact].rules@[0].matches@.len() == 1,
        routes[exact].rules@[0].matches@[0].path matches Some(MatchPath::Exact(_)),
        request_match(routes[exact].rules@[0].matches@[0], req) is Some,
        routes[prefix].rules@.len() == 1,
        routes[prefix].rules@[0].matches@.len() == 1,
        routes[prefix].rules@[0].matches@[0].path matches Some(MatchPath::Prefix(_)),
        request_match(routes[prefix].rules@[0].matches@[0], req) is Some,
    ensures
        table_match(routes, req) is Some,
        table_match(routes, req)->Some_0.1 != prefix,
{
    assert(route_host(routes[exact], req) == route_host(routes[prefix], req));
    lemma_single_matcher(routes[exact], req);
    lemma_single_matcher(routes[prefix], req);
    lemma_outranked_route_loses(routes, req, exact, prefix);
}

/// Of two routes with the same host patterns and one single-matcher rule
/// each, both applying, whose matchers have the same path condition, the one
/// whose matcher has more header conditions outranks the other, which is
/// never selected.
pub proof fn lemma_more_headers_preferred<T>(routes: Seq<HttpRoute<T>>, req: Request, more: int, fewer: int)
    requires
        0 <= more < routes.len(),
        0 <= fewer < routes.len(),
        routes[more].hosts@ == routes[fewer].hosts@,
        route_host(routes[more], req) is Some,
        routes[more].rules@.len() == 1,
        routes[more].rules@[0].matches@.len() == 1,
        routes[fewer].rules@.len() == 1,
        routes[fewer].rules@[0].matches@.len() == 1,
        routes[more].rules@[0].matches@[0].path == routes[fewer].rules@[0].matches@[0].path,
        routes[more].rules@[0].matches@[0].headers@.len() > routes[fewer].rules@[0].matches@[0].headers@.len(),
        routes[more].rules@[0].matches@[0].headers@.len() <= usize::MAX,
        request_match(routes[more].rules@[0].matches@[0], req) is Some,
        request_match(routes[fewer].rules@[0].matches@[0], req) is Some,
    ensures
        table_match(routes, req) is Some,
        table_match(routes, req)->Some_0.1 != fewer,
{
    assert(route_host(routes[more], req) == route_host(routes[fewer], req));
    lemma_single_matcher(routes[more], req);
    lemma_single_matcher(routes[fewer], req);
    lemma_outranked_route_loses(routes, req, more, fewer);
}

/// Whether route `i`'s rule `j` is the one selected for the request.
pub open spec fn selects<T>(routes: Seq<HttpRoute<T>>, req: Request, i: int, j: int) -> bool {
    table_match(routes, req) is Some && table_match(routes, req)->Some_0.1 == i && table_match(routes, req)->Some_0.2 == j
}

/// A rule without matchers, in a route without hosts, applies to every
/// request, so some rule is always selected; and it is selected only when
/// every route that applies ranks exactly as such a default rule does.
pub proof fn lemma_default_rule<T>(routes: Seq<HttpRoute<T>>, req: Request, i: int, j: int)
    requires
        0 <= i < routes.len(),
        routes[i].hosts@.len() == 0,
        0 <= j < routes[i].rules@.len(),
        routes[i].rules@[j].matches@.len() == 0,
    ensures
        rule_match(routes[i].rules@[j], req) == Some(default_request_match()),
        table_match(routes, req) is Some,
        selects(routes, req, i, j) ==> table_match(routes, req)->Some_0.0 == default_route_match()
            && forall|k: int|
            0 <= k < routes.len() && #[trigger] route_match(routes[k], req) is Some ==> route_match(routes[k], req)->Some_0.0
                == default_route_match(),
{
    lemma_orders();
    let rc = rule_cands(routes[i].rules@, req);
    lemma_pick_first_best(rc, request_order());
    assert(rc[j] is Some);
    lemma_table_first_best(routes, req);
    let cands = route_cands(routes, req);
    assert(cands[i] is Some);
    if selects(routes, req, i, j) {
        let m = table_match(routes, req)->Some_0.0;
        assert(m.host is None);
        assert(m.request == default_request_match());
        assert forall|k: int|
            0 <= k < routes.len() && #[trigger] route_match(routes[k], req) is Some implies route_match(routes[k], req)->Some_0.0
                == default_route_match() by {
            assert(cands[k] is Some);
            let x = route_match(routes[k], req)->Some_0.0;
            assert(!route_lt(m, x));
            assert(x.host is None);
            assert(x.request.path == PathMatch::Prefix(0));
        }
    }
}

/// A rule that applies but ranks below another rule of the same route that
/// applies is never the route's choice.
pub proof fn lemma_outranked_rule_loses<T>(route: HttpRoute<T>, req: Request, hi: int, lo: int)
    requires
        0 <= hi < route.rules@.len(),
        0 <= lo < route.rules@.len(),
        route_host(route, req) is Some,
        rule_match(route.rules@[hi], req) is Some,
        rule_match(route.rules@[lo], req) is Some,
        crate::route_match::request_lt(rule_match(route.rules@[lo], req)->Some_0, rule_match(route.rules@[hi], req)->Some_0),
    ensures
        route_match(route, req) is Some,
        route_match(route, req)->Some_0.1 != lo,
{
    lemma_orders();
    let cands = rule_cands(route.rules@, req);
    lemma_pick_first_best(cands, request_order());
    assert(cands[hi] is Some);
    assert(cands[lo] is Some);
}

proof fn lemma_single_matcher_rule<T>(rule: HttpRule<T>, req: Request)
    requires
        rule.matches@.len() == 1,
    ensures
        rule_match(rule, req) == request_match(rule.matches@[0], req),
{
    let mc = crate::route::matcher_cands(rule.matches@, req);
    assert(mc.drop_last() =~= Seq::<Option<crate::route_match::RequestMatch>>::empty());
    assert(pick(mc.drop_last(), request_order()) is None);
    assert(mc.last() == mc[0]);
    assert(mc[0] == request_match(rule.matches@[0], req));
}

/// Within one route, of two single-matcher rules that both apply, the one
/// with an exact path outranks the one with a path prefix, which is never
/// chosen, in whichever order the two are listed.
pub proof fn lemma_exact_path_rule_preferred<T>(route: HttpRoute<T>, req: Request, exact: int, prefix: int)
    requires
        0 <= exact < route.rules@.len(),
        0 <= prefix < route.rules@.len(),
        route_host(route, req) is Some,
        route.rules@[exact].matches@.len() == 1,
        route.rules@[exact].matches@[0].path matches Some(MatchPath::Exact(_)),
        request_match(route.rules@[exact].matches@[0], req) is Some,
        route.rules@[prefix].matches@.len() == 1,
        route.rules@[prefix].matches@[0].path matches Some(MatchPath::Prefix(_)),
        request_match(route.rules@[prefix].matches@[0], req) is Some,
    ensures
        route_match(route, req) is Some,
        route_match(route, req)->Some_0.1 != prefix,
{
    lemma_single_matcher_rule(route.rules@[exact], req);
    lemma_single_matcher_rule(route.rules@[prefix], req);
    lemma_outranked_rule_loses(route, req, exact, prefix);
}

/// Within one route, of two single-matcher rules that both apply and have the
/// same path condition, the one with more header conditions outranks the
/// other, which is never chosen, in whichever order the two are listed.
pub proof fn lemma_more_headers_rule_preferred<T>(route: HttpRoute<T>, req: Request, more: int, fewer: int)
    requires
        0 <= more < route.rules@.len(),
        0 <= fewer < route.rules@.len(),
        route_host(route, req) is Some,
        route.rules@[more].matches@.len() == 1,
        route.rules@[fewer].matches@.len() == 1,
        route.rules@[more].matches@[0].path == route.rules@[fewer].matches@[0].path,
        route.rules@[more].matches@[0].headers@.len() > route.rules@[fewer].matches@[0].headers@.len(),
        route.rules@[more].matches@[0].headers@.len() <= usize::MAX,
        request_match(route.rules@[more].matches@[0], req) is Some,
        request_match(route.rules@[fewer].matches@[0], req) is Some,
    ensures
        route_match(route, req) is Some,
        route_match(route, req)->Some_0.1 != fewer,
{
    lemma_single_matcher_rule(route.rules@[more], req);
    lemma_single_matcher_rule(route.rules@[fewer], req);
    lemma_outranked_rule_loses(route, req, more, fewer);
}

/// Appending a default route (no hosts, one rule without matchers) to a table
/// makes every request match: where the table matched nothing, the default
/// rule is selected with the default rank; where it matched, its selection
/// is kept, since nothing ranks below the default.
pub proof fn lemma_default_route_appended<T>(routes: Seq<HttpRoute<T>>, d: HttpRoute<T>, req: Request)
    requires
        d.hosts@.len() == 0,
        d.rules@.len() == 1,
        d.rules@[0].matches@.len() == 0,
    ensures
        table_match(routes.push(d), req) is Some,
        table_match(routes, req) is None ==> table_match(routes.push(d), req) == Some(
            (default_route_match(), routes.len() as int, 0int),
        ),
        table_match(routes, req) is Some ==> table_match(routes.push(d), req) == table_match(routes, req),
{
    let rc = rule_cands(d.rules@, req);
    assert(rc.drop_last() =~= Seq::<Option<crate::route_match::RequestMatch>>::empty());
    assert(pick(rc.drop_last(), request_order()) is None);
    assert(rc.last() == rc[0]);
    assert(rc[0] == rule_match(d.rules@[0], req));
    assert(route_match(d, req) == Some((default_route_match(), 0int)));
    let all = routes.push(d);
    let c2 = route_cands(all, req);
    assert(c2.drop_last() =~= route_cands(routes, req));
    assert(c2.last() == route_match(d, req));
    if let Some(p) = pick(route_cands(routes, req), route_order()) {
        assert(!route_lt(p.0.0, default_route_match()));
    }
}

} // verus!
