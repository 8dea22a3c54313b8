use linkerd_policy_core::header::ValidHeaderName;
use linkerd_policy_core::route::{find, HttpRoute, HttpRule};
use linkerd_policy_core::route_match::{
    parse_query, HostMatch, MatchHeader, MatchHost, MatchPath, MatchQueryParam, MatchRequest, PathMatch,
    Request,
};

#[derive(Copy, Clone, Debug, PartialEq, Eq)]
pub enum Policy {
    Expected,
    Unexpected,
}

impl Default for Policy {
    fn default() -> Self {
        Self::Unexpected
    }
}

fn request(host: &str, path: &str) -> Request {
    Request {
        host: Some(host.as_bytes().to_vec()),
        path: path.as_bytes().to_vec(),
        method: b"GET".to_vec(),
        headers: vec![],
        query_params: vec![],
    }
}

fn name(s: &str) -> ValidHeaderName {
    ValidHeaderName::from_bytes(s.as_bytes()).unwrap()
}

fn exact_path(p: &str) -> MatchRequest {
    MatchRequest {
        path: Some(MatchPath::Exact(p.as_bytes().to_vec())),
        ..MatchRequest::default()
    }
}

fn prefix_path(p: &str) -> MatchRequest {
    MatchRequest {
        path: Some(MatchPath::Prefix(p.as_bytes().to_vec())),
        ..MatchRequest::default()
    }
}

/// Given two equivalent routes, choose the explicit hostname match and not
/// the wildcard.
#[test]
fn hostname_precedence() {
    let rts = vec![
        HttpRoute {
            hosts: vec![MatchHost::parse(b"*.example.com")],
            rules: vec![HttpRule {
                matches: vec![exact_path("/foo")],
                ..HttpRule::default()
            }],
        },
        HttpRoute {
            hosts: vec![MatchHost::parse(b"foo.example.com")],
            rules: vec![HttpRule {
                matches: vec![exact_path("/foo")],
                policy: Policy::Expected,
            }],
        },
    ];

    let req = request("foo.example.com", "/foo");
    let (_, policy) = find(&rts, &req).expect("must match");
    assert_eq!(*policy, Policy::Expected, "incorrect rule matched");
}

#[test]
fn path_length_precedence() {
    // Given two equivalent routes, choose the longer path match.
    let rts = vec![
        HttpRoute {
            rules: vec![HttpRule {
                matches: vec![prefix_path("/foo")],
                ..HttpRule::default()
            }],
            hosts: vec![],
        },
        HttpRoute {
            rules: vec![HttpRule {
                matches: vec![exact_path("/foo/bar")],
                policy: Policy::Expected,
            }],
            hosts: vec![],
        },
    ];

    let req = request("foo.example.com", "/foo/bar");
    let (_, policy) = find(&rts, &req).expect("must match");
    assert_eq!(*policy, Policy::Expected, "incorrect rule matched");
}

/// Given two routes with header matches, use the one that matches more
/// headers.
#[test]
fn header_count_precedence() {
    let rts = vec![
        HttpRoute {
            rules: vec![HttpRule {
                matches: vec![MatchRequest {
                    headers: vec![
                        MatchHeader::Exact(name("x-foo"), b"bar".to_vec()),
                        MatchHeader::Exact(name("x-baz"), b"qux".to_vec()),
                    ],
                    ..MatchRequest::default()
                }],
                ..HttpRule::default()
            }],
            hosts: vec![],
        },
        HttpRoute {
            rules: vec![HttpRule {
                matches: vec![MatchRequest {
                    headers: vec![
                        MatchHeader::Exact(name("x-foo"), b"bar".to_vec()),
                        MatchHeader::Exact(name("x-baz"), b"qux".to_vec()),
                        MatchHeader::Exact(name("x-biz"), b"qyx".to_vec()),
                    ],
                    ..MatchRequest::default()
                }],
                policy: Policy::Expected,
            }],
            hosts: vec![],
        },
    ];

    let mut req = request("www.example.com", "/");
    req.headers = vec![
        (name("x-foo"), b"bar".to_vec()),
        (name("x-baz"), b"qux".to_vec()),
        (name("x-biz"), b"qyx".to_vec()),
    ];
    let (_, policy) = find(&rts, &req).expect("must match");
    assert_eq!(*policy, Policy::Expected, "incorrect rule matched");
}

/// Given two identical rules and two identical routes, the first listed wins.
#[test]
fn first_identical_wins() {
    let rts = vec![
        HttpRoute {
            rules: vec![
                HttpRule {
                    policy: Policy::Expected,
                    ..HttpRule::default()
                },
                // Redundant rule.
                HttpRule::default(),
            ],
            hosts: vec![],
        },
        // Redundant route.
        HttpRoute {
            rules: vec![HttpRule::default()],
            hosts: vec![],
        },
    ];

    let req = Request {
        path: b"/".to_vec(),
        ..Request::default()
    };
    let (_, policy) = find(&rts, &req).expect("must match");
    assert_eq!(*policy, Policy::Expected, "incorrect rule matched");
}

#[test]
fn identical_routes_first_listed_wins() {
    let rts = vec![
        HttpRoute {
            hosts: vec![],
            rules: vec![HttpRule {
                matches: vec![exact_path("/a")],
                policy: 1u32,
            }],
        },
        HttpRoute {
            hosts: vec![],
            rules: vec![HttpRule {
                matches: vec![exact_path("/a")],
                policy: 2u32,
            }],
        },
    ];
    let (_, policy) = find(&rts, &request("h", "/a")).expect("must match");
    assert_eq!(*policy, 1);
}

#[test]
fn exact_host_wins_in_either_order() {
    let rts = vec![
        HttpRoute {
            hosts: vec![MatchHost::parse(b"foo.example.com")],
            rules: vec![HttpRule {
                matches: vec![],
                policy: "exact",
            }],
        },
        HttpRoute {
            hosts: vec![MatchHost::parse(b"*.example.com")],
            rules: vec![HttpRule {
                matches: vec![],
                policy: "wildcard",
            }],
        },
    ];
    let (m, policy) = find(&rts, &request("foo.example.com", "/")).expect("must match");
    assert_eq!(*policy, "exact");
    assert_eq!(m.host, Some(HostMatch::Exact(15)));
    let (m, policy) = find(&rts, &request("bar.example.com", "/")).expect("must match");
    assert_eq!(*policy, "wildcard");
    assert_eq!(m.host, Some(HostMatch::Suffix(12)));
}

#[test]
fn host_routes_exclude_other_hosts() {
    let rts = vec![HttpRoute {
        hosts: vec![MatchHost::parse(b"*.example.com")],
        rules: vec![HttpRule {
            matches: vec![],
            policy: 1u8,
        }],
    }];
    assert!(find(&rts, &request("example.com", "/")).is_none());
    assert!(find(&rts, &request("example.org", "/")).is_none());
    let no_host = Request {
        path: b"/".to_vec(),
        ..Request::default()
    };
    assert!(find(&rts, &no_host).is_none());
}

#[test]
fn empty_table_matches_nothing() {
    let rts: Vec<HttpRoute<u8>> = vec![];
    assert!(find(&rts, &request("a", "/")).is_none());
}

#[test]
fn default_rule_only_wins_without_a_more_specific_rule() {
    let rts = vec![HttpRoute {
        hosts: vec![],
        rules: vec![
            HttpRule {
                matches: vec![],
                policy: "default",
            },
            HttpRule {
                matches: vec![prefix_path("/api")],
                policy: "api",
            },
        ],
    }];
    let (_, policy) = find(&rts, &request("a", "/api/v1")).expect("must match");
    assert_eq!(*policy, "api");
    let (m, policy) = find(&rts, &request("a", "/other")).expect("must match");
    assert_eq!(*policy, "default");
    assert_eq!(m.host, None);
    assert_eq!(m.request.path, PathMatch::Prefix(0));
    assert_eq!(m.request.headers, 0);
}

#[test]
fn prefix_matches_whole_segments() {
    let m = prefix_path("/foo");
    assert!(m.summarize_match(&request("a", "/foo")).is_some());
    assert!(m.summarize_match(&request("a", "/foo/bar")).is_some());
    assert!(m.summarize_match(&request("a", "/foobar")).is_none());
    let slash = prefix_path("/foo/");
    assert_eq!(
        slash.summarize_match(&request("a", "/foo/bar")).map(|r| r.path),
        Some(PathMatch::Prefix(5))
    );
}

#[test]
fn longer_prefix_wins() {
    let rts = vec![HttpRoute {
        hosts: vec![],
        rules: vec![
            HttpRule {
                matches: vec![prefix_path("/a")],
                policy: "short",
            },
            HttpRule {
                matches: vec![prefix_path("/a/b")],
                policy: "long",
            },
        ],
    }];
    let (m, policy) = find(&rts, &request("h", "/a/b/c")).expect("must match");
    assert_eq!(*policy, "long");
    assert_eq!(m.request.path, PathMatch::Prefix(4));
}

#[test]
fn method_and_query_conditions() {
    let m = MatchRequest {
        method: Some(b"POST".to_vec()),
        query_params: vec![
            MatchQueryParam::Exact(b"a".to_vec(), b"1".to_vec()),
            MatchQueryParam::Present(b"b".to_vec()),
        ],
        ..MatchRequest::default()
    };
    let mut req = request("h", "/");
    req.method = b"POST".to_vec();
    req.query_params = vec![
        (b"a".to_vec(), b"1".to_vec()),
        (b"b".to_vec(), b"".to_vec()),
    ];
    let r = m.summarize_match(&req).expect("must match");
    assert_eq!(r.query_params, 2);
    assert!(r.method);
    req.method = b"GET".to_vec();
    assert!(m.summarize_match(&req).is_none());
    req.method = b"POST".to_vec();
    req.query_params = vec![(b"a".to_vec(), b"2".to_vec()), (b"b".to_vec(), b"".to_vec())];
    assert!(m.summarize_match(&req).is_none());
}

#[test]
fn best_matcher_of_a_rule_counts() {
    let rts = vec![
        HttpRoute {
            hosts: vec![],
            rules: vec![HttpRule {
                matches: vec![prefix_path("/x"), exact_path("/x/y")],
                policy: "both",
            }],
        },
        HttpRoute {
            hosts: vec![],
            rules: vec![HttpRule {
                matches: vec![prefix_path("/x/y")],
                policy: "prefix",
            }],
        },
    ];
    let (m, policy) = find(&rts, &request("h", "/x/y")).expect("must match");
    assert_eq!(*policy, "both");
    assert_eq!(m.request.path, PathMatch::Exact(4));
}

#[test]
fn present_header_condition() {
    let m = MatchRequest {
        headers: vec![MatchHeader::Present(name("x-id"))],
        ..MatchRequest::default()
    };
    let mut req = request("h", "/");
    assert!(m.summarize_match(&req).is_none());
    req.headers = vec![(name("X-Id"), b"7".to_vec())];
    assert_eq!(m.summarize_match(&req).map(|r| r.headers), Some(1));
}

#[test]
fn host_pattern_parsing() {
    assert_eq!(MatchHost::parse(b"*.example.com"), MatchHost::Suffix(b".example.com".to_vec()));
    assert_eq!(MatchHost::parse(b"example.com"), MatchHost::Exact(b"example.com".to_vec()));
    assert_eq!(MatchHost::parse(b"*"), MatchHost::Exact(b"*".to_vec()));
}

#[test]
fn query_strings_split_into_pairs() {
    assert_eq!(
        parse_query(b"a=1&b&&c=x=y"),
        vec![
            (b"a".to_vec(), b"1".to_vec()),
            (b"b".to_vec(), b"".to_vec()),
            (b"c".to_vec(), b"x=y".to_vec()),
        ]
    );
    assert!(parse_query(b"").is_empty());
    assert_eq!(parse_query(b"=v"), vec![(b"".to_vec(), b"v".to_vec())]);
}

#[test]
fn exact_path_rule_wins_in_either_order() {
    for flip in [false, true] {
        let mut rules = vec![
            HttpRule {
                matches: vec![prefix_path("/foo")],
                policy: "prefix",
            },
            HttpRule {
                matches: vec![exact_path("/foo/bar")],
                policy: "exact",
            },
        ];
        if flip {
            rules.reverse();
        }
        let rts = vec![HttpRoute { hosts: vec![], rules }];
        let (_, policy) = find(&rts, &request("h", "/foo/bar")).expect("must match");
        assert_eq!(*policy, "exact");
    }
}

#[test]
fn more_headers_rule_wins_in_either_order() {
    let two = MatchRequest {
        headers: vec![
            MatchHeader::Exact(name("x-foo"), b"bar".to_vec()),
            MatchHeader::Exact(name("x-baz"), b"qux".to_vec()),
        ],
        ..MatchRequest::default()
    };
    let mut three = two.clone();
    three.headers.push(MatchHeader::Exact(name("x-biz"), b"qyx".to_vec()));
    let mut req = request("h", "/");
    req.headers = vec![
        (name("x-foo"), b"bar".to_vec()),
        (name("x-baz"), b"qux".to_vec()),
        (name("x-biz"), b"qyx".to_vec()),
    ];
    for flip in [false, true] {
        let mut rules = vec![
            HttpRule {
                matches: vec![two.clone()],
                policy: 2u8,
            },
            HttpRule {
                matches: vec![three.clone()],
                policy: 3u8,
            },
        ];
        if flip {
            rules.reverse();
        }
        let rts = vec![HttpRoute { hosts: vec![], rules }];
        let (_, policy) = find(&rts, &req).expect("must match");
        assert_eq!(*policy, 3);
    }
}

#[test]
fn appended_default_route_keeps_earlier_winner() {
    let specific = HttpRoute {
        hosts: vec![],
        rules: vec![HttpRule {
            matches: vec![exact_path("/x")],
            policy: "specific",
        }],
    };
    let fallback = HttpRoute {
        hosts: vec![],
        rules: vec![HttpRule {
            matches: vec![],
            policy: "default",
        }],
    };
    let rts = vec![specific, fallback];
    let (_, policy) = find(&rts, &request("h", "/x")).expect("must match");
    assert_eq!(*policy, "specific");
    let (m, policy) = find(&rts, &request("h", "/y")).expect("must match");
    assert_eq!(*policy, "default");
    assert_eq!(m.request.path, PathMatch::Prefix(0));
}
