//! Route policies for inbound HTTP: the filters a matched rule carries, the
//! authorizations it grants, and the default route.
use vstd::prelude::*;

use crate::modify_header::ModifyHeader;
use crate::route::{table_match, HttpRoute, HttpRouteMatch, HttpRule};
use crate::route_match::Request;

verus! {

/// How a redirect rewrites the request path.
#[derive(Clone, Debug, PartialEq, Eq, Hash)]
pub enum ModifyPath {
    ReplaceFullPath(String),
    ReplacePrefixMatch(String),
}

/// Answer the request with a synthesized error instead of forwarding it.
#[derive(Clone, Debug, PartialEq, Eq, Hash)]
pub struct RespondWithError {
    pub status: u16,
    pub message: String,
}

/// Answer the request with a redirect to a rewritten location.
#[derive(Clone, Debug, PartialEq, Eq, Hash)]
pub struct RedirectRequest {
    pub scheme: Option<String>,
    pub authority: Option<String>,
    pub path: Option<ModifyPath>,
    pub status: u16,
}

#[derive(Clone, Debug, PartialEq, Eq, Hash)]
pub enum Filter {
    Error(RespondWithError),
    RequestHeaders(ModifyHeader),
    Redirect(RedirectRequest),
    /// A filter kind this proxy does not know (the controller is newer).
    /// Skipping it could skip logic the controller meant to enforce, so a
    /// route whose policy holds one must be refused.
    Unknown,
}

/// Where a policy came from: the built-in default, or a named resource.
#[derive(Clone, Debug, PartialEq, Eq, Hash)]
pub enum Meta {
    Default { name: String },
    Resource { group: String, kind: String, name: String },
}

/// What a matched rule carries: its origin, the authorizations that admit
/// requests on it, and the filters applied to those requests.
#[derive(Clone, Debug, PartialEq, Eq, Hash)]
pub struct RoutePolicy<A> {
    pub meta: Meta,
    pub authorizations: Vec<A>,
    pub filters: Vec<Filter>,
}

pub type Route<A> = HttpRoute<RoutePolicy<A>>;

pub type Rule<A> = HttpRule<RoutePolicy<A>>;

impl<A> RoutePolicy<A> {
    /// Whether every filter is of a kind this proxy applies. A policy with an
    /// unknown filter fails closed: its requests are refused, not forwarded
    /// unfiltered.
    pub fn filters_known(&self) -> (r: bool)
        ensures
            r == forall|i: int| 0 <= i < self.filters@.len() ==> !(#[trigger] self.filters@[i] is Unknown),
    {
        let mut i: usize = 0;
        while i < self.filters.len()
            invariant
                i <= self.filters@.len(),
                forall|j: int| 0 <= j < i ==> !(#[trigger] self.filters@[j] is Unknown),
            decreases self.filters.len() - i,
        {
            if let Filter::Unknown = &self.filters[i] {
                return false;
            }
            i = i + 1;
        }
        true
    }
}

/// Selects the policy of the best-matching rule for the request.
pub fn find<'r, A>(routes: &'r [Route<A>], req: &Request) -> (r: Option<(HttpRouteMatch, &'r RoutePolicy<A>)>)
    ensures
        match table_match(routes@, *req) {
            None => r is None,
            Some((m, i, j)) => 0 <= i < routes@.len() && 0 <= j < routes@[i].rules@.len() && (r matches Some((
                rm,
                p,
            )) && rm == m && *p == routes@[i].rules@[j].policy),
        },
{
    crate::route::find(routes, req)
}

/// The route used when no route is configured: it applies to every host and
/// every request, grants `authorizations`, and applies no filter.
pub fn default<A>(authorizations: Vec<A>) -> (r: Route<A>)
    ensures
        r.hosts@.len() == 0,
        r.rules@.len() == 1,
        r.rules@[0].matches@.len() == 0,
        r.rules@[0].policy.meta matches Meta::Default { name } && name@ == "default"@,
        r.rules@[0].policy.authorizations == authorizations,
        r.rules@[0].policy.filters@.len() == 0,
{
    let rule = HttpRule {
        matches: Vec::new(),
        policy: RoutePolicy {
            meta: Meta::Default { name: String::from_str("default") },
            authorizations,
            filters: Vec::new(),
        },
    };
    let mut rules: Vec<Rule<A>> = Vec::new();
    rules.push(rule);
    HttpRoute { hosts: Vec::new(), rules }
}

} // verus!
