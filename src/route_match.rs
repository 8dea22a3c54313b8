//! Host and request matchers, and the specificity ranks their matches carry.
use vstd::prelude::*;

use crate::bytes::{bytes_eq, ends_with, starts_with};
use crate::header::ValidHeaderName;

verus! {

/// The parts of an HTTP request that route matching reads.
#[derive(Clone, Debug, Default, PartialEq, Eq, Hash)]
pub struct Request {
    /// The request's host (authority without port), if it has one.
    pub host: Option<Vec<u8>>,
    pub path: Vec<u8>,
    pub method: Vec<u8>,
    pub headers: Vec<(ValidHeaderName, Vec<u8>)>,
    pub query_params: Vec<(Vec<u8>, Vec<u8>)>,
}

/// A host pattern: an exact hostname, or a wildcard such as `*.example.com`,
/// held as its suffix `.example.com`.
#[derive(Clone, Debug, PartialEq, Eq, Hash)]
pub enum MatchHost {
    Exact(Vec<u8>),
    Suffix(Vec<u8>),
}

/// How specifically a host pattern matched: an exact match of a name of the
/// given length, or a wildcard whose suffix has the given length.
#[derive(Clone, Copy, Debug, PartialEq, Eq, Hash)]
pub enum HostMatch {
    Exact(usize),
    Suffix(usize),
}

#[derive(Clone, Debug, PartialEq, Eq, Hash)]
pub enum MatchPath {
    Exact(Vec<u8>),
    /// Matches the path itself and every path below it, segment by segment.
    Prefix(Vec<u8>),
}

/// How specifically a path matched, with the length of the matcher's path.
#[derive(Clone, Copy, Debug, PartialEq, Eq, Hash)]
pub enum PathMatch {
    Exact(usize),
    Prefix(usize),
}

#[derive(Clone, Debug, PartialEq, Eq, Hash)]
pub enum MatchHeader {
    /// The request has a header of this name with exactly this value.
    Exact(ValidHeaderName, Vec<u8>),
    /// The request has a header of this name.
    Present(ValidHeaderName),
}

#[derive(Clone, Debug, PartialEq, Eq, Hash)]
pub enum MatchQueryParam {
    Exact(Vec<u8>, Vec<u8>),
    Present(Vec<u8>),
}

/// A conjunction of conditions on a request; absent parts always hold.
#[derive(Clone, Debug, Default, PartialEq, Eq, Hash)]
pub struct MatchRequest {
    pub path: Option<MatchPath>,
    pub headers: Vec<MatchHeader>,
    pub query_params: Vec<MatchQueryParam>,
    pub method: Option<Vec<u8>>,
}

/// How specifically a request matcher matched.
#[derive(Clone, Copy, Debug, PartialEq, Eq, Hash)]
pub struct RequestMatch {
    pub path: PathMatch,
    pub headers: usize,
    pub query_params: usize,
    pub method: bool,
}

// === specification ===

pub open spec fn host_match(m: MatchHost, host: Option<Seq<u8>>) -> Option<HostMatch> {
    match host {
        None => None,
        Some(h) => match m {
            MatchHost::Exact(e) => if h == e@ {
                Some(HostMatch::Exact(e@.len() as usize))
            } else {
                None
            },
            MatchHost::Suffix(s) => if s@.len() < h.len() && h.skip(h.len() - s@.len()) == s@ {
                Some(HostMatch::Suffix(s@.len() as usize))
            } else {
                None
            },
        },
    }
}

/// Host ranks: exact names outrank wildcards, and longer outranks shorter.
pub open spec fn host_lt(a: HostMatch, b: HostMatch) -> bool {
    match (a, b) {
        (HostMatch::Exact(x), HostMatch::Exact(y)) => x < y,
        (HostMatch::Suffix(_), HostMatch::Exact(_)) => true,
        (HostMatch::Exact(_), HostMatch::Suffix(_)) => false,
        (HostMatch::Suffix(x), HostMatch::Suffix(y)) => x < y,
    }
}

/// A prefix matches whole path segments: `/foo` matches `/foo` and `/foo/bar`
/// but not `/foobar`.
pub open spec fn prefix_matches(prefix: Seq<u8>, path: Seq<u8>) -> bool {
    &&& prefix.len() <= path.len()
    &&& path.take(prefix.len() as int) == prefix
    &&& (prefix.len() == path.len() || prefix.len() == 0 || prefix.last() == 47u8 || path[prefix.len() as int] == 47u8)
}

pub open spec fn path_match(m: MatchPath, path: Seq<u8>) -> Option<PathMatch> {
    match m {
        MatchPath::Exact(p) => if path == p@ {
            Some(PathMatch::Exact(p@.len() as usize))
        } else {
            None
        },
        MatchPath::Prefix(p) => if prefix_matches(p@, path) {
            Some(PathMatch::Prefix(p@.len() as usize))
        } else {
            None
        },
    }
}

/// Path ranks: exact paths outrank prefixes, and longer outranks shorter.
pub open spec fn path_lt(a: PathMatch, b: PathMatch) -> bool {
    match (a, b) {
        (PathMatch::Exact(x), PathMatch::Exact(y)) => x < y,
        (PathMatch::Prefix(_), PathMatch::Exact(_)) => true,
        (PathMatch::Exact(_), PathMatch::Prefix(_)) => false,
        (PathMatch::Prefix(x), PathMatch::Prefix(y)) => x < y,
    }
}

pub open spec fn header_matches(m: MatchHeader, req: Request) -> bool {
    match m {
        MatchHeader::Exact(n, v) => exists|i: int|
            0 <= i < req.headers@.len() && (#[trigger] req.headers@[i]).0@ == n@ && req.headers@[i].1@ == v@,
        MatchHeader::Present(n) => exists|i: int| 0 <= i < req.headers@.len() && (#[trigger] req.headers@[i]).0@ == n@,
    }
}

pub open spec fn query_param_matches(m: MatchQueryParam, req: Request) -> bool {
    match m {
        MatchQueryParam::Exact(n, v) => exists|i: int|
            0 <= i < req.query_params@.len() && (#[trigger] req.query_params@[i]).0@ == n@
                && req.query_params@[i].1@ == v@,
        MatchQueryParam::Present(n) => exists|i: int|
            0 <= i < req.query_params@.len() && (#[trigger] req.query_params@[i]).0@ == n@,
    }
}

/// The rank of a matcher with no conditions.
pub open spec fn default_request_match() -> RequestMatch {
    RequestMatch { path: PathMatch::Prefix(0), headers: 0, query_params: 0, method: false }
}

pub open spec fn request_match(m: MatchRequest, req: Request) -> Option<RequestMatch> {
    let path = match m.path {
        None => Some(PathMatch::Prefix(0)),
        Some(p) => path_match(p, req.path@),
    };
    let method_ok = match m.method {
        None => true,
        Some(x) => x@ == req.method@,
    };
    let headers_ok = forall|i: int| 0 <= i < m.headers@.len() ==> header_matches(#[trigger] m.headers@[i], req);
    let query_ok = forall|i: int|
        0 <= i < m.query_params@.len() ==> query_param_matches(#[trigger] m.query_params@[i], req);
    if path is Some && method_ok && headers_ok && query_ok {
        Some(
            RequestMatch {
                path: path->Some_0,
                headers: m.headers@.len() as usize,
                query_params: m.query_params@.len() as usize,
                method: m.method is Some,
            },
        )
    } else {
        None
    }
}

/// Request ranks compare the path first, then the number of header
/// conditions, then the number of query conditions, then the method.
pub open spec fn request_lt(a: RequestMatch, b: RequestMatch) -> bool {
    ||| path_lt(a.path, b.path)
    ||| a.path == b.path && a.headers < b.headers
    ||| a.path == b.path && a.headers == b.headers && a.query_params < b.query_params
    ||| a.path == b.path && a.headers == b.headers && a.query_params == b.query_params && !a.method && b.method
}

/// The state of a left-to-right scan of a query string: the pairs finished
/// so far, the current key and value, and whether the value has begun.
pub type QueryScan = (Seq<(Seq<u8>, Seq<u8>)>, Seq<u8>, Seq<u8>, bool);

/// Ends the current `key=value` segment; an empty segment adds no pair.
pub open spec fn close_segment(st: QueryScan) -> Seq<(Seq<u8>, Seq<u8>)> {
    if st.1.len() == 0 && !st.3 {
        st.0
    } else {
        st.0.push((st.1, st.2))
    }
}

/// One byte of the scan: `&` ends a segment, the first `=` of a segment
/// starts its value, any other byte extends the key or the value.
pub open spec fn query_step(st: QueryScan, b: u8) -> QueryScan {
    if b == 38u8 {
        (close_segment(st), Seq::empty(), Seq::empty(), false)
    } else if b == 61u8 && !st.3 {
        (st.0, st.1, st.2, true)
    } else if st.3 {
        (st.0, st.1, st.2.push(b), true)
    } else {
        (st.0, st.1.push(b), st.2, false)
    }
}

pub open spec fn query_scan(q: Seq<u8>) -> QueryScan
    decreases q.len(),
{
    if q.len() == 0 {
        (Seq::empty(), Seq::empty(), Seq::empty(), false)
    } else {
        query_step(query_scan(q.drop_last()), q.last())
    }
}

/// The `key=value` pairs of a query string, split on `&` and on the first
/// `=` of each segment; a segment without `=` has an empty value.
pub open spec fn query_pairs(q: Seq<u8>) -> Seq<(Seq<u8>, Seq<u8>)> {
    close_segment(query_scan(q))
}

pub open spec fn pair_bytes(v: Seq<(Vec<u8>, Vec<u8>)>) -> Seq<(Seq<u8>, Seq<u8>)> {
    v.map_values(|p: (Vec<u8>, Vec<u8>)| (p.0@, p.1@))
}

// === implementation ===

/// Splits a query string into its `key=value` pairs.
pub fn parse_query(q: &[u8]) -> (r: Vec<(Vec<u8>, Vec<u8>)>)
    ensures
        pair_bytes(r@) == query_pairs(q@),
{
    let mut done: Vec<(Vec<u8>, Vec<u8>)> = Vec::new();
    let mut key: Vec<u8> = Vec::new();
    let mut val: Vec<u8> = Vec::new();
    let mut in_val = false;
    let mut i: usize = 0;
    assert(q@.take(0) =~= Seq::<u8>::empty());
    assert(pair_bytes(done@) =~= Seq::empty());
    while i < q.len()
        invariant
            i <= q@.len(),
            query_scan(q@.take(i as int)) == (pair_bytes(done@), key@, val@, in_val),
        decreases q.len() - i,
    {
        assert(q@.take(i + 1).drop_last() =~= q@.take(i as int));
        assert(q@.take(i + 1).last() == q@[i as int]);
        let b = q[i];
        if b == 38u8 {
            if !(key.len() == 0 && !in_val) {
                let ghost before = done@;
                done.push((key, val));
                assert(pair_bytes(done@) =~= pair_bytes(before).push((done@.last().0@, done@.last().1@)));
            }
            key = Vec::new();
            val = Vec::new();
            in_val = false;
            assert(key@ =~= Seq::<u8>::empty());
            assert(val@ =~= Seq::<u8>::empty());
        } else if b == 61u8 && !in_val {
            in_val = true;
        } else if in_val {
            val.push(b);
        } else {
            key.push(b);
        }
        i = i + 1;
    }
    assert(q@.take(q@.len() as int) =~= q@);
    if !(key.len() == 0 && !in_val) {
        let ghost before = done@;
        done.push((key, val));
        assert(pair_bytes(done@) =~= pair_bytes(before).push((done@.last().0@, done@.last().1@)));
    }
    done
}

impl MatchHost {
    /// Reads `*.example.com` as a wildcard and anything else as an exact name.
    pub fn parse(s: &[u8]) -> (r: MatchHost)
        ensures
            (s@.len() >= 2 && s@[0] == 42u8 && s@[1] == 46u8) ==> (r matches MatchHost::Suffix(v) && v@ == s@.skip(1)),
            !(s@.len() >= 2 && s@[0] == 42u8 && s@[1] == 46u8) ==> (r matches MatchHost::Exact(v) && v@ == s@),
    {
        let mut v: Vec<u8> = Vec::new();
        let wildcard = s.len() >= 2 && s[0] == 42u8 && s[1] == 46u8;
        let mut i: usize = if wildcard {
            1
        } else {
            0
        };
        let start: usize = i;
        while i < s.len()
            invariant
                start <= i <= s@.len(),
                start <= 1,
                v@ == s@.subrange(start as int, i as int),
            decreases s.len() - i,
        {
            v.push(s[i]);
            i = i + 1;
            assert(v@ =~= s@.subrange(start as int, i as int));
        }
        assert(s@.subrange(start as int, s@.len() as int) =~= s@.skip(start as int));
        if wildcard {
            MatchHost::Suffix(v)
        } else {
            assert(s@.skip(0) =~= s@);
            MatchHost::Exact(v)
        }
    }

    pub fn summarize_match(&self, host: &Option<Vec<u8>>) -> (r: Option<HostMatch>)
        ensures
            r == host_match(
                *self,
                match host {
                    Some(h) => Some(h@),
                    None => None,
                },
            ),
    {
        match host {
            None => None,
            Some(h) => match self {
                MatchHost::Exact(e) => if bytes_eq(h.as_slice(), e.as_slice()) {
                    Some(HostMatch::Exact(e.len()))
                } else {
                    None
                },
                MatchHost::Suffix(s) => if s.len() < h.len() && ends_with(h.as_slice(), s.as_slice()) {
                    Some(HostMatch::Suffix(s.len()))
                } else {
                    None
                },
            },
        }
    }
}

impl HostMatch {
    pub fn lt(&self, other: &HostMatch) -> (r: bool)
        ensures
            r == host_lt(*self, *other),
    {
        match (self, other) {
            (HostMatch::Exact(x), HostMatch::Exact(y)) => *x < *y,
            (HostMatch::Suffix(_), HostMatch::Exact(_)) => true,
            (HostMatch::Exact(_), HostMatch::Suffix(_)) => false,
            (HostMatch::Suffix(x), HostMatch::Suffix(y)) => *x < *y,
        }
    }
}

impl PathMatch {
    pub fn lt(&self, other: &PathMatch) -> (r: bool)
        ensures
            r == path_lt(*self, *other),
    {
        match (self, other) {
            (PathMatch::Exact(x), PathMatch::Exact(y)) => *x < *y,
            (PathMatch::Prefix(_), PathMatch::Exact(_)) => true,
            (PathMatch::Exact(_), PathMatch::Prefix(_)) => false,
            (PathMatch::Prefix(x), PathMatch::Prefix(y)) => *x < *y,
        }
    }

    fn same(&self, other: &PathMatch) -> (r: bool)
        ensures
            r == (*self == *other),
    {
        match (self, other) {
            (PathMatch::Exact(x), PathMatch::Exact(y)) => *x == *y,
            (PathMatch::Prefix(x), PathMatch::Prefix(y)) => *x == *y,
            _ => false,
        }
    }
}

impl RequestMatch {
    /// The rank of a matcher with no conditions, which every request meets.
    pub fn default_match() -> (r: RequestMatch)
        ensures
            r == default_request_match(),
    {
        RequestMatch { path: PathMatch::Prefix(0), headers: 0, query_params: 0, method: false }
    }

    pub fn lt(&self, other: &RequestMatch) -> (r: bool)
        ensures
            r == request_lt(*self, *other),
    {
        if self.path.lt(&other.path) {
            return true;
        }
        if !self.path.same(&other.path) {
            return false;
        }
        if self.headers != other.headers {
            return self.headers < other.headers;
        }
        if self.query_params != other.query_params {
            return self.query_params < other.query_params;
        }
        !self.method && other.method
    }
}

impl MatchPath {
    pub fn summarize_match(&self, path: &Vec<u8>) -> (r: Option<PathMatch>)
        ensures
            r == path_match(*self, path@),
    {
        match self {
            MatchPath::Exact(p) => if bytes_eq(path.as_slice(), p.as_slice()) {
                Some(PathMatch::Exact(p.len()))
            } else {
                None
            },
            MatchPath::Prefix(p) => {
                if !starts_with(path.as_slice(), p.as_slice()) {
                    return None;
                }
                let boundary = p.len() == path.len() || p.len() == 0 || p[p.len() - 1] == 47u8
                    || path[p.len()] == 47u8;
                if boundary {
                    Some(PathMatch::Prefix(p.len()))
                } else {
                    None
                }
            },
        }
    }
}

impl MatchHeader {
    pub fn matches(&self, req: &Request) -> (r: bool)
        ensures
            r == header_matches(*self, *req),
    {
        let mut i: usize = 0;
        while i < req.headers.len()
            invariant
                i <= req.headers@.len(),
                forall|j: int|
                    0 <= j < i ==> match *self {
                        MatchHeader::Exact(n, v) => !((#[trigger] req.headers@[j]).0@ == n@ && req.headers@[j].1@ == v@),
                        MatchHeader::Present(n) => (#[trigger] req.headers@[j]).0@ != n@,
                    },
            decreases req.headers.len() - i,
        {
            let (name, value) = (&req.headers[i].0, &req.headers[i].1);
            let hit = match self {
                MatchHeader::Exact(n, v) => bytes_eq(name.as_bytes(), n.as_bytes()) && bytes_eq(
                    value.as_slice(),
                    v.as_slice(),
                ),
                MatchHeader::Present(n) => bytes_eq(name.as_bytes(), n.as_bytes()),
            };
            if hit {
                return true;
            }
            i = i + 1;
        }
        false
    }
}

impl MatchQueryParam {
    pub fn matches(&self, req: &Request) -> (r: bool)
        ensures
            r == query_param_matches(*self, *req),
    {
        let mut i: usize = 0;
        while i < req.query_params.len()
            invariant
                i <= req.query_params@.len(),
                forall|j: int|
                    0 <= j < i ==> match *self {
                        MatchQueryParam::Exact(n, v) => !((#[trigger] req.query_params@[j]).0@ == n@
                            && req.query_params@[j].1@ == v@),
                        MatchQueryParam::Present(n) => (#[trigger] req.query_params@[j]).0@ != n@,
                    },
            decreases req.query_params.len() - i,
        {
            let (name, value) = (&req.query_params[i].0, &req.query_params[i].1);
            let hit = match self {
                MatchQueryParam::Exact(n, v) => bytes_eq(name.as_slice(), n.as_slice()) && bytes_eq(
                    value.as_slice(),
                    v.as_slice(),
                ),
                MatchQueryParam::Present(n) => bytes_eq(name.as_slice(), n.as_slice()),
            };
            if hit {
                return true;
            }
            i = i + 1;
        }
        false
    }
}

impl MatchRequest {
    pub fn summarize_match(&self, req: &Request) -> (r: Option<RequestMatch>)
        ensures
            r == request_match(*self, *req),
    {
        let path = match &self.path {
            None => PathMatch::Prefix(0),
            Some(p) => match p.summarize_match(&req.path) {
                Some(m) => m,
                None => return None,
            },
        };
        let method = match &self.method {
            None => false,
            Some(m) => {
                if !bytes_eq(m.as_slice(), req.method.as_slice()) {
                    return None;
                }
                true
            },
        };
        let mut i: usize = 0;
        while i < self.headers.len()
            invariant
                i <= self.headers@.len(),
                forall|j: int| 0 <= j < i ==> header_matches(#[trigger] self.headers@[j], *req),
            decreases self.headers.len() - i,
        {
            if !self.headers[i].matches(req) {
                return None;
            }
            i = i + 1;
        }
        let mut k: usize = 0;
        while k < self.query_params.len()
            invariant
                k <= self.query_params@.len(),
                forall|j: int| 0 <= j < k ==> query_param_matches(#[trigger] self.query_params@[j], *req),
            decreases self.query_params.len() - k,
        {
            if !self.query_params[k].matches(req) {
                return None;
            }
            k = k + 1;
        }
        Some(
            RequestMatch {
                path,
                headers: self.headers.len(),
                query_params: self.query_params.len(),
                method,
            },
        )
    }
}

} // verus!
