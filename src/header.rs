//! Header names and values, and the `http::HeaderMap` they are written into.
use vstd::prelude::*;

verus! {

/// The fewest distinct names an `http::HeaderMap` holds when it refuses a
/// new entry: it only fails to grow once its index table has reached its
/// largest size (32768 slots) with a load of at least a fifth.
pub const FULL_MAP_MIN_NAMES: usize = 6554;

/// The largest header name `http` accepts, in bytes.
pub const MAX_HEADER_NAME_LEN: usize = 65535;

/// Bytes that may appear in a normalized (lower-case) header name.
pub open spec fn is_name_byte(b: u8) -> bool {
    ||| b == 33 || b == 34 || b == 35 || b == 36 || b == 37 || b == 38 || b == 39
    ||| b == 42 || b == 43 || b == 45 || b == 46
    ||| 48 <= b <= 57
    ||| b == 94 || b == 95 || b == 96
    ||| 97 <= b <= 122
    ||| b == 124 || b == 126
}

/// ASCII lower-casing of one byte.
pub open spec fn lower_byte(b: u8) -> u8 {
    if 65 <= b <= 90 {
        (b + 32) as u8
    } else {
        b
    }
}

/// A header name in normal form: non-empty, bounded, lower-case token bytes.
pub open spec fn is_header_name(s: Seq<u8>) -> bool {
    &&& 0 < s.len() <= MAX_HEADER_NAME_LEN
    &&& forall|i: int| 0 <= i < s.len() ==> is_name_byte(#[trigger] s[i])
}

/// The normal form of a header name, or `None` when the bytes are not a name.
pub open spec fn normalized_header_name(s: Seq<u8>) -> Option<Seq<u8>> {
    let lowered = s.map_values(|b: u8| lower_byte(b));
    if is_header_name(lowered) {
        Some(lowered)
    } else {
        None
    }
}

/// Bytes allowed in a header value: visible bytes, space, tab and obs-text.
pub open spec fn is_value_byte(b: u8) -> bool {
    (b >= 32 && b != 127) || b == 9
}

pub open spec fn is_header_value(s: Seq<u8>) -> bool {
    forall|i: int| 0 <= i < s.len() ==> is_value_byte(#[trigger] s[i])
}

#[verifier::external_type_specification]
#[verifier::external_body]
#[verifier::reject_recursive_types(T)]
pub struct ExHeaderMap<T>(http::HeaderMap<T>);

/// The value type of `http::HeaderMap`'s default parameter: the map's type
/// names it, so it is declared too.
#[verifier::external_type_specification]
#[verifier::external_body]
pub struct ExHttpHeaderValue(http::HeaderValue);

/// What a header map holds: each name with its values, in insertion order.
pub uninterp spec fn header_entries(m: http::HeaderMap) -> Map<Seq<u8>, Seq<Seq<u8>>>;

/// A validated header name in normal (lower-case) form.
#[derive(Clone, Debug, PartialEq, Eq, Hash)]
pub struct ValidHeaderName {
    bytes: Vec<u8>,
}

/// A validated header value.
#[derive(Clone, Debug, PartialEq, Eq, Hash)]
pub struct ValidHeaderValue {
    bytes: Vec<u8>,
}

impl View for ValidHeaderName {
    type V = Seq<u8>;

    closed spec fn view(&self) -> Seq<u8> {
        self.bytes@
    }
}

impl View for ValidHeaderValue {
    type V = Seq<u8>;

    closed spec fn view(&self) -> Seq<u8> {
        self.bytes@
    }
}

impl ValidHeaderName {
    pub open spec fn wf(&self) -> bool {
        is_header_name(self@)
    }

    /// Parses and normalizes a header name, as `http::HeaderName` does.
    pub fn from_bytes(src: &[u8]) -> (r: Option<ValidHeaderName>)
        ensures
            r matches Some(n) ==> n.wf(),
            normalized_header_name(src@) == match r {
                Some(n) => Some(n@),
                None => None::<Seq<u8>>,
            },
    {
        match parse_header_name(src) {
            Some(bytes) => Some(ValidHeaderName { bytes }),
            None => None,
        }
    }

    pub fn as_bytes(&self) -> (r: &[u8])
        ensures
            r@ == self@,
    {
        self.bytes.as_slice()
    }
}

impl ValidHeaderValue {
    pub open spec fn wf(&self) -> bool {
        is_header_value(self@)
    }

    /// Accepts the bytes as a header value when every byte may appear in one.
    pub fn from_bytes(src: &[u8]) -> (r: Option<ValidHeaderValue>)
        ensures
            r matches Some(v) ==> v.wf() && v@ == src@,
            r is None <==> !is_header_value(src@),
    {
        if valid_header_value(src) {
            Some(ValidHeaderValue { bytes: copy_bytes(src) })
        } else {
            None
        }
    }

    pub fn as_bytes(&self) -> (r: &[u8])
        ensures
            r@ == self@,
    {
        self.bytes.as_slice()
    }
}

/// Relies on `http::HeaderName::from_bytes`: it lower-cases ASCII letters and
/// accepts the result when it is non-empty, at most 65535 bytes long and every
/// byte is a name character; `as_str` returns those bytes.
#[verifier::external_body]
fn parse_header_name(src: &[u8]) -> (r: Option<Vec<u8>>)
    ensures
        normalized_header_name(src@) == match r {
            Some(v) => Some(v@),
            None => None::<Seq<u8>>,
        },
{
    match http::HeaderName::from_bytes(src) {
        Ok(n) => Some(n.as_str().as_bytes().to_vec()),
        Err(_) => None,
    }
}

/// Relies on `http::HeaderValue::from_bytes`: it accepts exactly the byte
/// strings whose bytes are all tab, or at least 32 and not 127.
#[verifier::external_body]
fn valid_header_value(src: &[u8]) -> (r: bool)
    ensures
        r == is_header_value(src@),
{
    http::HeaderValue::from_bytes(src).is_ok()
}

/// Relies on `http::HeaderMap::try_append`: on success the value is pushed to
/// the end of the name's values; on failure nothing changes, and
/// failure needs the map to hold at least `FULL_MAP_MIN_NAMES` names.
#[verifier::external_body]
pub(crate) fn header_map_append(m: &mut http::HeaderMap, name: &ValidHeaderName, value: &ValidHeaderValue) -> (r: bool)
    requires
        name.wf(),
        value.wf(),
    ensures
        r ==> header_entries(*final(m)) == appended(header_entries(*old(m)), name@, value@),
        !r ==> header_entries(*final(m)) == header_entries(*old(m)),
        !r ==> header_entries(*old(m)).dom().finite() && header_entries(*old(m)).dom().len() >= FULL_MAP_MIN_NAMES,
{
    let n = http::HeaderName::from_bytes(&name.bytes).expect("a normalized name");
    let v = http::HeaderValue::from_bytes(&value.bytes).expect("a valid value");
    m.try_append(n, v).is_ok()
}

/// Relies on `http::HeaderMap::try_insert`: on success the value replaces all
/// of the name's values; on failure nothing changes, and
/// failure needs the map to hold at least `FULL_MAP_MIN_NAMES` names.
#[verifier::external_body]
pub(crate) fn header_map_insert(m: &mut http::HeaderMap, name: &ValidHeaderName, value: &ValidHeaderValue) -> (r: bool)
    requires
        name.wf(),
        value.wf(),
    ensures
        r ==> header_entries(*final(m)) == header_entries(*old(m)).insert(name@, seq![value@]),
        !r ==> header_entries(*final(m)) == header_entries(*old(m)),
        !r ==> header_entries(*old(m)).dom().finite() && header_entries(*old(m)).dom().len() >= FULL_MAP_MIN_NAMES,
{
    let n = http::HeaderName::from_bytes(&name.bytes).expect("a normalized name");
    let v = http::HeaderValue::from_bytes(&value.bytes).expect("a valid value");
    m.try_insert(n, v).is_ok()
}

/// Relies on `http::HeaderMap::remove`: all values of the name are removed.
#[verifier::external_body]
pub(crate) fn header_map_remove(m: &mut http::HeaderMap, name: &ValidHeaderName)
    requires
        name.wf(),
    ensures
        header_entries(*final(m)) == header_entries(*old(m)).remove(name@),
{
    let n = http::HeaderName::from_bytes(&name.bytes).expect("a normalized name");
    m.remove(n);
}

/// A fresh vector holding the same bytes.
pub fn copy_bytes(src: &[u8]) -> (r: Vec<u8>)
    ensures
        r@ == src@,
{
    let mut r: Vec<u8> = Vec::with_capacity(src.len());
    let mut i: usize = 0;
    while i < src.len()
        invariant
            i <= src.len(),
            r@ == src@.subrange(0, i as int),
        decreases src.len() - i,
    {
        r.push(src[i]);
        i = i + 1;
        assert(r@ =~= src@.subrange(0, i as int));
    }
    assert(r@ =~= src@);
    r
}

/// The entries after one more value is appended under `name`.
pub open spec fn appended(
    m: Map<Seq<u8>, Seq<Seq<u8>>>,
    name: Seq<u8>,
    value: Seq<u8>,
) -> Map<Seq<u8>, Seq<Seq<u8>>> {
    let prior = if m.contains_key(name) {
        m[name]
    } else {
        Seq::empty()
    };
    m.insert(name, prior.push(value))
}

} // verus!
