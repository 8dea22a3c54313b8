//! The request-header filter: validated add/set/remove operations, and the
//! conversion of a wire-format modifier into that validated form.
use vstd::prelude::*;

use crate::header::{
    appended, header_entries, FULL_MAP_MIN_NAMES, header_map_append, header_map_insert, header_map_remove,
    is_header_value, normalized_header_name, ValidHeaderName, ValidHeaderValue,
};

verus! {

/// Header operations applied in order: append (`add`), then insert-or-replace
/// (`set`), then remove.
#[derive(Clone, Debug, Default, PartialEq, Eq, Hash)]
pub struct ModifyHeader {
    pub add: Vec<(ValidHeaderName, ValidHeaderValue)>,
    pub set: Vec<(ValidHeaderName, ValidHeaderValue)>,
    pub remove: Vec<ValidHeaderName>,
}

/// A header as it arrives on the wire, not yet validated.
#[derive(Clone, Debug, Default, PartialEq, Eq, Hash)]
pub struct WireHeader {
    pub name: Vec<u8>,
    pub value: Vec<u8>,
}

/// A header modifier as it arrives on the wire, not yet validated.
#[derive(Clone, Debug, Default, PartialEq, Eq, Hash)]
pub struct RequestHeaderModifier {
    pub add: Vec<WireHeader>,
    pub set: Vec<WireHeader>,
    pub remove: Vec<Vec<u8>>,
}

/// Why a wire-format modifier was rejected.
#[derive(Clone, Copy, Debug, PartialEq, Eq, Hash)]
pub enum InvalidModifyHeader {
    /// A header name is not a valid header token.
    Name,
    /// A header value holds a byte that may not appear in a header value.
    Value,
}

/// The header map could not take another entry; the operations before the
/// failing one were applied.
#[derive(Clone, Copy, Debug, PartialEq, Eq, Hash)]
pub struct HeaderMapFull;

/// One header operation, over the bytes of names and values.
pub enum HeaderOp {
    Append(Seq<u8>, Seq<u8>),
    Insert(Seq<u8>, Seq<u8>),
    Remove(Seq<u8>),
}

pub type HeaderEntries = Map<Seq<u8>, Seq<Seq<u8>>>;

pub open spec fn step(m: HeaderEntries, op: HeaderOp) -> HeaderEntries {
    match op {
        HeaderOp::Append(n, v) => appended(m, n, v),
        HeaderOp::Insert(n, v) => m.insert(n, seq![v]),
        HeaderOp::Remove(n) => m.remove(n),
    }
}

/// The entries after running `ops` in order.
pub open spec fn run(m: HeaderEntries, ops: Seq<HeaderOp>) -> HeaderEntries
    decreases ops.len(),
{
    if ops.len() == 0 {
        m
    } else {
        step(run(m, ops.drop_last()), ops.last())
    }
}

pub open spec fn pair_views(s: Seq<(ValidHeaderName, ValidHeaderValue)>) -> Seq<(Seq<u8>, Seq<u8>)> {
    s.map_values(|p: (ValidHeaderName, ValidHeaderValue)| (p.0@, p.1@))
}

pub open spec fn name_views(s: Seq<ValidHeaderName>) -> Seq<Seq<u8>> {
    s.map_values(|n: ValidHeaderName| n@)
}

impl ModifyHeader {
    pub open spec fn wf(&self) -> bool {
        &&& forall|i: int| 0 <= i < self.add@.len() ==> (#[trigger] self.add@[i]).0.wf() && self.add@[i].1.wf()
        &&& forall|i: int| 0 <= i < self.set@.len() ==> (#[trigger] self.set@[i]).0.wf() && self.set@[i].1.wf()
        &&& forall|i: int| 0 <= i < self.remove@.len() ==> (#[trigger] self.remove@[i]).wf()
    }

    /// The operations this filter performs, in the order it performs them.
    pub open spec fn ops(&self) -> Seq<HeaderOp> {
        pair_views(self.add@).map_values(|p: (Seq<u8>, Seq<u8>)| HeaderOp::Append(p.0, p.1))
            + pair_views(self.set@).map_values(|p: (Seq<u8>, Seq<u8>)| HeaderOp::Insert(p.0, p.1))
            + name_views(self.remove@).map_values(|n: Seq<u8>| HeaderOp::Remove(n))
    }

    /// Applies the filter to `headers`: every `add` value is appended, every
    /// `set` value replaces the name's values, and every `remove` name is
    /// dropped. Where the map is full, the operations before the failing one
    /// stay applied and `Err` is returned; that never happens while the map's
    /// names and the filter's operations together stay under
    /// `FULL_MAP_MIN_NAMES`.
    pub fn apply(&self, headers: &mut http::HeaderMap) -> (r: Result<(), HeaderMapFull>)
        requires
            self.wf(),
        ensures
            r is Ok ==> header_entries(*final(headers)) == run(header_entries(*old(headers)), self.ops()),
            r is Err ==> exists|k: int|
                0 <= k < self.ops().len() && header_entries(*final(headers)) == run(
                    header_entries(*old(headers)),
                    #[trigger] self.ops().take(k),
                ),
            header_entries(*old(headers)).dom().finite() && header_entries(*old(headers)).dom().len()
                + self.ops().len() < FULL_MAP_MIN_NAMES ==> r is Ok,
    {
        let ghost m0 = header_entries(*headers);
        let ghost ops = self.ops();
        let ghost na = self.add@.len() as int;
        let ghost ns = self.set@.len() as int;
        let ghost nr = self.remove@.len() as int;
        assert(ops.len() == na + ns + nr);
        let mut i: usize = 0;
        while i < self.add.len()
            invariant
                self.wf(),
                m0 == header_entries(*old(headers)),
                ops == self.ops(),
                na == self.add@.len(),
                ns == self.set@.len(),
                nr == self.remove@.len(),
                ops.len() == na + ns + nr,
                i <= na,
                header_entries(*headers) == run(m0, ops.take(i as int)),
            decreases self.add.len() - i,
        {
            let ok = header_map_append(headers, &self.add[i].0, &self.add[i].1);
            if !ok {
                assert(header_entries(*headers) == run(m0, self.ops().take(i as int)));
                proof {
                    if m0.dom().finite() {
                        lemma_run_take_size(m0, ops, i as int);
                    }
                }
                return Err(HeaderMapFull);
            }
            proof {
                lemma_run_take_step(m0, ops, i as int);
            }
            i = i + 1;
        }
        let mut j: usize = 0;
        while j < self.set.len()
            invariant
                self.wf(),
                m0 == header_entries(*old(headers)),
                ops == self.ops(),
                na == self.add@.len(),
                ns == self.set@.len(),
                nr == self.remove@.len(),
                ops.len() == na + ns + nr,
                j <= ns,
                header_entries(*headers) == run(m0, ops.take(na + j)),
            decreases self.set.len() - j,
        {
            let ok = header_map_insert(headers, &self.set[j].0, &self.set[j].1);
            if !ok {
                assert(header_entries(*headers) == run(m0, self.ops().take(na + j)));
                proof {
                    if m0.dom().finite() {
                        lemma_run_take_size(m0, ops, na + j);
                    }
                }
                return Err(HeaderMapFull);
            }
            proof {
                lemma_run_take_step(m0, ops, na + j);
            }
            j = j + 1;
        }
        let mut k: usize = 0;
        while k < self.remove.len()
            invariant
                self.wf(),
                m0 == header_entries(*old(headers)),
                ops == self.ops(),
                na == self.add@.len(),
                ns == self.set@.len(),
                nr == self.remove@.len(),
                ops.len() == na + ns + nr,
                k <= nr,
                header_entries(*headers) == run(m0, ops.take(na + ns + k)),
            decreases self.remove.len() - k,
        {
            header_map_remove(headers, &self.remove[k]);
            proof {
                lemma_run_take_step(m0, ops, na + ns + k);
            }
            k = k + 1;
        }
        assert(ops.take(ops.len() as int) =~= ops);
        Ok(())
    }
}

pub type PairViews = Seq<(Seq<u8>, Seq<u8>)>;

/// Validation of one wire header: its name first, then its value.
pub open spec fn checked_header(h: WireHeader) -> Result<(Seq<u8>, Seq<u8>), InvalidModifyHeader> {
    match normalized_header_name(h.name@) {
        None => Err(InvalidModifyHeader::Name),
        Some(n) => if is_header_value(h.value@) {
            Ok((n, h.value@))
        } else {
            Err(InvalidModifyHeader::Value)
        },
    }
}

/// Validation of a list of wire headers: the first invalid one decides.
pub open spec fn checked_pairs(hs: Seq<WireHeader>) -> Result<PairViews, InvalidModifyHeader>
    decreases hs.len(),
{
    if hs.len() == 0 {
        Ok(Seq::empty())
    } else {
        match checked_pairs(hs.drop_last()) {
            Err(e) => Err(e),
            Ok(v) => match checked_header(hs.last()) {
                Err(e) => Err(e),
                Ok(p) => Ok(v.push(p)),
            },
        }
    }
}

/// Validation of a list of wire header names: the first invalid one decides.
pub open spec fn checked_names(ns: Seq<Vec<u8>>) -> Result<Seq<Seq<u8>>, InvalidModifyHeader>
    decreases ns.len(),
{
    if ns.len() == 0 {
        Ok(Seq::empty())
    } else {
        match checked_names(ns.drop_last()) {
            Err(e) => Err(e),
            Ok(v) => match normalized_header_name(ns.last()@) {
                None => Err(InvalidModifyHeader::Name),
                Some(n) => Ok(v.push(n)),
            },
        }
    }
}

/// The validated form of a wire modifier: `add`, then `set`, then `remove`
/// are checked, and the first invalid name or value decides the error.
pub open spec fn validated(w: RequestHeaderModifier) -> Result<(PairViews, PairViews, Seq<Seq<u8>>), InvalidModifyHeader> {
    match checked_pairs(w.add@) {
        Err(e) => Err(e),
        Ok(add) => match checked_pairs(w.set@) {
            Err(e) => Err(e),
            Ok(set) => match checked_names(w.remove@) {
                Err(e) => Err(e),
                Ok(remove) => Ok((add, set, remove)),
            },
        },
    }
}

fn to_pairs(hs: &Vec<WireHeader>) -> (r: Result<Vec<(ValidHeaderName, ValidHeaderValue)>, InvalidModifyHeader>)
    ensures
        match r {
            Ok(v) => checked_pairs(hs@) == Ok::<PairViews, InvalidModifyHeader>(pair_views(v@))
                && forall|i: int| 0 <= i < v@.len() ==> (#[trigger] v@[i]).0.wf() && v@[i].1.wf(),
            Err(e) => checked_pairs(hs@) == Err::<PairViews, InvalidModifyHeader>(e),
        },
{
    let mut out: Vec<(ValidHeaderName, ValidHeaderValue)> = Vec::new();
    let mut i: usize = 0;
    assert(hs@.take(0) =~= Seq::<WireHeader>::empty());
    assert(pair_views(out@) =~= Seq::empty());
    while i < hs.len()
        invariant
            i <= hs@.len(),
            checked_pairs(hs@.take(i as int)) == Ok::<PairViews, InvalidModifyHeader>(pair_views(out@)),
            forall|j: int| 0 <= j < out@.len() ==> (#[trigger] out@[j]).0.wf() && out@[j].1.wf(),
        decreases hs.len() - i,
    {
        assert(hs@.take(i + 1).drop_last() =~= hs@.take(i as int));
        let h = &hs[i];
        let name = match ValidHeaderName::from_bytes(h.name.as_slice()) {
            Some(n) => n,
            None => {
                proof {
                    lemma_pairs_error_stays(hs@, i + 1);
                }
                return Err(InvalidModifyHeader::Name);
            },
        };
        let value = match ValidHeaderValue::from_bytes(h.value.as_slice()) {
            Some(v) => v,
            None => {
                proof {
                    lemma_pairs_error_stays(hs@, i + 1);
                }
                return Err(InvalidModifyHeader::Value);
            },
        };
        let ghost before = out@;
        out.push((name, value));
        assert(pair_views(out@) =~= pair_views(before).push((out@.last().0@, out@.last().1@)));
        i = i + 1;
    }
    assert(hs@.take(hs@.len() as int) =~= hs@);
    Ok(out)
}

/// Once a prefix of the headers fails validation, the whole list fails the same way.
proof fn lemma_pairs_error_stays(hs: Seq<WireHeader>, n: int)
    requires
        0 <= n <= hs.len(),
        checked_pairs(hs.take(n)) is Err,
    ensures
        checked_pairs(hs) == checked_pairs(hs.take(n)),
    decreases hs.len() - n,
{
    if n < hs.len() {
        assert(hs.take(n + 1).drop_last() =~= hs.take(n));
        lemma_pairs_error_stays(hs, n + 1);
    } else {
        assert(hs.take(n) =~= hs);
    }
}

/// Once a prefix of the names fails validation, the whole list fails the same way.
proof fn lemma_names_error_stays(ns: Seq<Vec<u8>>, n: int)
    requires
        0 <= n <= ns.len(),
        checked_names(ns.take(n)) is Err,
    ensures
        checked_names(ns) == checked_names(ns.take(n)),
    decreases ns.len() - n,
{
    if n < ns.len() {
        assert(ns.take(n + 1).drop_last() =~= ns.take(n));
        lemma_names_error_stays(ns, n + 1);
    } else {
        assert(ns.take(n) =~= ns);
    }
}

fn to_names(ns: &Vec<Vec<u8>>) -> (r: Result<Vec<ValidHeaderName>, InvalidModifyHeader>)
    ensures
        match r {
            Ok(v) => checked_names(ns@) == Ok::<Seq<Seq<u8>>, InvalidModifyHeader>(name_views(v@))
                && forall|i: int| 0 <= i < v@.len() ==> (#[trigger] v@[i]).wf(),
            Err(e) => checked_names(ns@) == Err::<Seq<Seq<u8>>, InvalidModifyHeader>(e),
        },
{
    let mut out: Vec<ValidHeaderName> = Vec::new();
    let mut i: usize = 0;
    assert(ns@.take(0) =~= Seq::<Vec<u8>>::empty());
    assert(name_views(out@) =~= Seq::empty());
    while i < ns.len()
        invariant
            i <= ns@.len(),
            checked_names(ns@.take(i as int)) == Ok::<Seq<Seq<u8>>, InvalidModifyHeader>(name_views(out@)),
            forall|j: int| 0 <= j < out@.len() ==> (#[trigger] out@[j]).wf(),
        decreases ns.len() - i,
    {
        assert(ns@.take(i + 1).drop_last() =~= ns@.take(i as int));
        let name = match ValidHeaderName::from_bytes(ns[i].as_slice()) {
            Some(n) => n,
            None => {
                proof {
                    lemma_names_error_stays(ns@, i + 1);
                }
                return Err(InvalidModifyHeader::Name);
            },
        };
        let ghost before = out@;
        out.push(name);
        assert(name_views(out@) =~= name_views(before).push(out@.last()@));
        i = i + 1;
    }
    assert(ns@.take(ns@.len() as int) =~= ns@);
    Ok(out)
}

impl ModifyHeader {
    /// Validates a wire-format modifier. The lists are checked in the order
    /// `add`, `set`, `remove`, each header name before its value; the first
    /// invalid name gives `Name` and the first invalid value gives `Value`.
    pub fn try_from(rhm: RequestHeaderModifier) -> (r: Result<ModifyHeader, InvalidModifyHeader>)
        ensures
            match r {
                Ok(mh) => mh.wf() && validated(rhm) == Ok::<(PairViews, PairViews, Seq<Seq<u8>>), InvalidModifyHeader>(
                    (pair_views(mh.add@), pair_views(mh.set@), name_views(mh.remove@)),
                ),
                Err(e) => validated(rhm) == Err::<(PairViews, PairViews, Seq<Seq<u8>>), InvalidModifyHeader>(e),
            },
    {
        let add = match to_pairs(&rhm.add) {
            Ok(v) => v,
            Err(e) => return Err(e),
        };
        let set = match to_pairs(&rhm.set) {
            Ok(v) => v,
            Err(e) => return Err(e),
        };
        let remove = match to_names(&rhm.remove) {
            Ok(v) => v,
            Err(e) => return Err(e),
        };
        Ok(ModifyHeader { add, set, remove })
    }
}

pub open spec fn names_valid(hs: Seq<WireHeader>) -> bool {
    forall|i: int| 0 <= i < hs.len() ==> (#[trigger] normalized_header_name(hs[i].name@)) is Some
}

pub open spec fn values_valid(hs: Seq<WireHeader>) -> bool {
    forall|i: int| 0 <= i < hs.len() ==> is_header_value(#[trigger] hs[i].value@)
}

pub open spec fn removed_names_valid(ns: Seq<Vec<u8>>) -> bool {
    forall|i: int| 0 <= i < ns.len() ==> (#[trigger] normalized_header_name(ns[i]@)) is Some
}

/// Every name of the modifier is a valid header name.
pub open spec fn all_names_valid(w: RequestHeaderModifier) -> bool {
    names_valid(w.add@) && names_valid(w.set@) && removed_names_valid(w.remove@)
}

/// Every value of the modifier is valid header-value content.
pub open spec fn all_values_valid(w: RequestHeaderModifier) -> bool {
    values_valid(w.add@) && values_valid(w.set@)
}

proof fn lemma_checked_pairs(hs: Seq<WireHeader>)
    ensures
        checked_pairs(hs) is Ok <==> names_valid(hs) && values_valid(hs),
        values_valid(hs) && checked_pairs(hs) is Err ==> checked_pairs(hs) == Err::<PairViews, InvalidModifyHeader>(InvalidModifyHeader::Name),
        names_valid(hs) && checked_pairs(hs) is Err ==> checked_pairs(hs) == Err::<PairViews, InvalidModifyHeader>(InvalidModifyHeader::Value),
    decreases hs.len(),
{
    if hs.len() > 0 {
        let init = hs.drop_last();
        lemma_checked_pairs(init);
        assert(names_valid(hs) ==> names_valid(init));
        assert(values_valid(hs) ==> values_valid(init));
        assert(names_valid(init) && normalized_header_name(hs.last().name@) is Some ==> names_valid(hs)) by {
            if names_valid(init) && normalized_header_name(hs.last().name@) is Some {
                assert forall|i: int| 0 <= i < hs.len() implies (#[trigger] normalized_header_name(hs[i].name@)) is Some by {
                    if i < hs.len() - 1 {
                        assert(hs[i] == init[i]);
                    }
                }
            }
        }
        assert(values_valid(init) && is_header_value(hs.last().value@) ==> values_valid(hs)) by {
            if values_valid(init) && is_header_value(hs.last().value@) {
                assert forall|i: int| 0 <= i < hs.len() implies is_header_value(#[trigger] hs[i].value@) by {
                    if i < hs.len() - 1 {
                        assert(hs[i] == init[i]);
                    }
                }
            }
        }
        assert(names_valid(hs) ==> normalized_header_name(hs[hs.len() - 1].name@) is Some);
        assert(values_valid(hs) ==> is_header_value(hs[hs.len() - 1].value@));
    }
}

proof fn lemma_checked_names(ns: Seq<Vec<u8>>)
    ensures
        checked_names(ns) is Ok <==> removed_names_valid(ns),
        checked_names(ns) is Err ==> checked_names(ns) == Err::<Seq<Seq<u8>>, InvalidModifyHeader>(InvalidModifyHeader::Name),
    decreases ns.len(),
{
    if ns.len() > 0 {
        let init = ns.drop_last();
        lemma_checked_names(init);
        assert(removed_names_valid(ns) ==> removed_names_valid(init));
        assert(removed_names_valid(init) && normalized_header_name(ns.last()@) is Some ==> removed_names_valid(ns)) by {
            if removed_names_valid(init) && normalized_header_name(ns.last()@) is Some {
                assert forall|i: int| 0 <= i < ns.len() implies (#[trigger] normalized_header_name(ns[i]@)) is Some by {
                    if i < ns.len() - 1 {
                        assert(ns[i] == init[i]);
                    }
                }
            }
        }
        assert(removed_names_valid(ns) ==> normalized_header_name(ns[ns.len() - 1]@) is Some);
    }
}

/// Validation tells the two failures apart: a modifier whose values are all
/// valid but which holds an invalid name is rejected with `Name`, one whose
/// names are all valid but which holds an invalid value is rejected with
/// `Value`, and one with valid names and values is accepted.
pub proof fn lemma_validation_errors(w: RequestHeaderModifier)
    ensures
        all_values_valid(w) && !all_names_valid(w) ==> validated(w) == Err::<(PairViews, PairViews, Seq<Seq<u8>>), InvalidModifyHeader>(InvalidModifyHeader::Name),
        all_names_valid(w) && !all_values_valid(w) ==> validated(w) == Err::<(PairViews, PairViews, Seq<Seq<u8>>), InvalidModifyHeader>(InvalidModifyHeader::Value),
        all_names_valid(w) && all_values_valid(w) ==> validated(w) is Ok,
{
    lemma_checked_pairs(w.add@);
    lemma_checked_pairs(w.set@);
    lemma_checked_names(w.remove@);
}

/// The name an operation acts on.
pub open spec fn op_name(op: HeaderOp) -> Seq<u8> {
    match op {
        HeaderOp::Append(n, _) => n,
        HeaderOp::Insert(n, _) => n,
        HeaderOp::Remove(n) => n,
    }
}

/// The index of the last operation on `n`, if any.
pub open spec fn last_touch(ops: Seq<HeaderOp>, n: Seq<u8>) -> Option<int>
    decreases ops.len(),
{
    if ops.len() == 0 {
        None
    } else if op_name(ops.last()) == n {
        Some(ops.len() - 1)
    } else {
        last_touch(ops.drop_last(), n)
    }
}

proof fn lemma_last_touch(ops: Seq<HeaderOp>, n: Seq<u8>)
    ensures
        match last_touch(ops, n) {
            None => forall|k: int| 0 <= k < ops.len() ==> op_name(#[trigger] ops[k]) != n,
            Some(j) => 0 <= j < ops.len() && op_name(ops[j]) == n && forall|k: int|
                j < k < ops.len() ==> op_name(#[trigger] ops[k]) != n,
        },
    decreases ops.len(),
{
    if ops.len() > 0 {
        let init = ops.drop_last();
        lemma_last_touch(init, n);
        assert forall|k: int| 0 <= k < init.len() implies #[trigger] init[k] == ops[k] by {}
        if op_name(ops.last()) != n {
            assert(last_touch(ops, n) == last_touch(init, n));
            assert(ops.last() == ops[ops.len() - 1]);
            match last_touch(init, n) {
                None => {
                    assert forall|k: int| 0 <= k < ops.len() implies op_name(#[trigger] ops[k]) != n by {
                        if k < init.len() {
                            assert(ops[k] == init[k]);
                        }
                    }
                },
                Some(j) => {
                    assert(ops[j] == init[j]);
                    assert forall|k: int| j < k < ops.len() implies op_name(#[trigger] ops[k]) != n by {
                        if k < init.len() {
                            assert(ops[k] == init[k]);
                        }
                    }
                },
            }
        }
    }
}

/// What the operations leave under one name is decided by the last operation
/// on it: untouched names keep their values, a last insert leaves exactly its
/// value, a last remove leaves nothing.
proof fn lemma_run_name(m: HeaderEntries, ops: Seq<HeaderOp>, n: Seq<u8>)
    ensures
        match last_touch(ops, n) {
            None => run(m, ops).contains_key(n) == m.contains_key(n) && (m.contains_key(n) ==> run(m, ops)[n]
                == m[n]),
            Some(j) => match ops[j] {
                HeaderOp::Insert(_, v) => run(m, ops).contains_key(n) && run(m, ops)[n] == seq![v],
                HeaderOp::Remove(_) => !run(m, ops).contains_key(n),
                HeaderOp::Append(_, _) => true,
            },
        },
    decreases ops.len(),
{
    if ops.len() > 0 {
        let init = ops.drop_last();
        lemma_run_name(m, init, n);
        lemma_last_touch(init, n);
        let prev = run(m, init);
        assert(run(m, ops) == step(prev, ops.last()));
        assert(ops.last() == ops[ops.len() - 1]);
        if op_name(ops.last()) != n {
            assert(last_touch(ops, n) == last_touch(init, n));
            assert forall|k: int| 0 <= k < init.len() implies #[trigger] init[k] == ops[k] by {}
            match ops.last() {
                HeaderOp::Append(x, v) => {
                    assert(appended(prev, x, v).contains_key(n) == prev.contains_key(n));
                    assert(prev.contains_key(n) ==> appended(prev, x, v)[n] == prev[n]);
                },
                HeaderOp::Insert(x, v) => {
                    assert(prev.insert(x, seq![v]).contains_key(n) == prev.contains_key(n));
                },
                HeaderOp::Remove(x) => {
                    assert(prev.remove(x).contains_key(n) == prev.contains_key(n));
                },
            }
            if let Some(j) = last_touch(init, n) {
                assert(ops[j] == init[j]);
            }
        } else {
            assert(last_touch(ops, n) == Some(ops.len() - 1));
        }
    }
}

/// A name that no operation of the filter names keeps its values.
pub proof fn lemma_filter_keeps_untouched(m: HeaderEntries, mh: ModifyHeader, n: Seq<u8>)
    requires
        forall|k: int| 0 <= k < mh.ops().len() ==> op_name(#[trigger] mh.ops()[k]) != n,
    ensures
        run(m, mh.ops()).contains_key(n) == m.contains_key(n),
        m.contains_key(n) ==> run(m, mh.ops())[n] == m[n],
{
    lemma_last_touch(mh.ops(), n);
    lemma_run_name(m, mh.ops(), n);
}

/// Every name of `remove` is gone after the filter, whatever `add` and `set`
/// did to it: removal runs last.
pub proof fn lemma_filter_removes(m: HeaderEntries, mh: ModifyHeader, i: int)
    requires
        0 <= i < mh.remove@.len(),
    ensures
        !run(m, mh.ops()).contains_key(mh.remove@[i]@),
{
    let ops = mh.ops();
    let n = mh.remove@[i]@;
    let first = mh.add@.len() + mh.set@.len();
    assert(ops[first + i] == HeaderOp::Remove(n));
    lemma_last_touch(ops, n);
    lemma_run_name(m, ops, n);
    let j = last_touch(ops, n)->Some_0;
    assert(j >= first + i);
    assert(ops[j] == HeaderOp::Remove(name_views(mh.remove@)[j - first]));
}

/// The last `set` entry for a name that `remove` does not name decides its
/// only value.
pub proof fn lemma_filter_last_set_wins(m: HeaderEntries, mh: ModifyHeader, s: int)
    requires
        0 <= s < mh.set@.len(),
        forall|t: int| s < t < mh.set@.len() ==> (#[trigger] mh.set@[t]).0@ != mh.set@[s].0@,
        forall|r: int| 0 <= r < mh.remove@.len() ==> (#[trigger] mh.remove@[r])@ != mh.set@[s].0@,
    ensures
        run(m, mh.ops()).contains_key(mh.set@[s].0@),
        run(m, mh.ops())[mh.set@[s].0@] == seq![mh.set@[s].1@],
{
    let ops = mh.ops();
    let n = mh.set@[s].0@;
    let na = mh.add@.len() as int;
    let ns = mh.set@.len() as int;
    assert(ops[na + s] == HeaderOp::Insert(n, mh.set@[s].1@));
    lemma_last_touch(ops, n);
    lemma_run_name(m, ops, n);
    let j = last_touch(ops, n)->Some_0;
    assert(j >= na + s);
    if j > na + s {
        if j < na + ns {
            assert(ops[j] == HeaderOp::Insert(mh.set@[j - na].0@, mh.set@[j - na].1@));
        } else {
            assert(ops[j] == HeaderOp::Remove(mh.remove@[j - na - ns]@));
        }
    }
}

/// A filter without `add` operations changes nothing when it runs a second
/// time: `set` and `remove` give the same result however often they run.
pub proof fn lemma_filter_without_add_idempotent(m: HeaderEntries, mh: ModifyHeader)
    requires
        mh.add@.len() == 0,
    ensures
        run(run(m, mh.ops()), mh.ops()) == run(m, mh.ops()),
{
    let ops = mh.ops();
    let once = run(m, ops);
    let twice = run(once, ops);
    assert forall|n: Seq<u8>| #[trigger] twice.contains_key(n) == once.contains_key(n) && (once.contains_key(n)
        ==> twice[n] == once[n]) by {
        lemma_last_touch(ops, n);
        lemma_run_name(m, ops, n);
        lemma_run_name(once, ops, n);
        if let Some(j) = last_touch(ops, n) {
            assert(!(ops[j] is Append));
        }
    }
    assert(twice =~= once);
}

/// The values a map holds under `n`, none when it lacks the name.
pub open spec fn values_of(m: HeaderEntries, n: Seq<u8>) -> Seq<Seq<u8>> {
    if m.contains_key(n) {
        m[n]
    } else {
        Seq::empty()
    }
}

/// The values of the pairs named `n`, in order.
pub open spec fn added_values(add: PairViews, n: Seq<u8>) -> Seq<Seq<u8>>
    decreases add.len(),
{
    if add.len() == 0 {
        Seq::empty()
    } else if add.last().0 == n {
        added_values(add.drop_last(), n).push(add.last().1)
    } else {
        added_values(add.drop_last(), n)
    }
}

proof fn lemma_added_prefix(m: HeaderEntries, mh: ModifyHeader, n: Seq<u8>, k: int)
    requires
        0 <= k <= mh.ops().len(),
        forall|t: int| 0 <= t < mh.set@.len() ==> (#[trigger] mh.set@[t]).0@ != n,
        forall|r: int| 0 <= r < mh.remove@.len() ==> (#[trigger] mh.remove@[r])@ != n,
    ensures
        values_of(run(m, mh.ops().take(k)), n) == values_of(m, n) + added_values(
            pair_views(mh.add@).take(if k < mh.add@.len() { k } else { mh.add@.len() as int }),
            n,
        ),
    decreases k,
{
    let ops = mh.ops();
    let adds = pair_views(mh.add@);
    let na = mh.add@.len() as int;
    let ns = mh.set@.len() as int;
    if k == 0 {
        assert(ops.take(0) =~= Seq::<HeaderOp>::empty());
        assert(adds.take(0) =~= Seq::<(Seq<u8>, Seq<u8>)>::empty());
        assert(values_of(m, n) + Seq::<Seq<u8>>::empty() =~= values_of(m, n));
    } else {
        lemma_added_prefix(m, mh, n, k - 1);
        lemma_run_take_step(m, ops, k - 1);
        let prev = run(m, ops.take(k - 1));
        if k <= na {
            assert(ops[k - 1] == HeaderOp::Append(adds[k - 1].0, adds[k - 1].1));
            assert(adds.take(k).drop_last() =~= adds.take(k - 1));
            assert(adds.take(k).last() == adds[k - 1]);
            let before = values_of(m, n) + added_values(adds.take(k - 1), n);
            if adds[k - 1].0 == n {
                assert(before.push(adds[k - 1].1) =~= values_of(m, n) + added_values(adds.take(k - 1), n).push(
                    adds[k - 1].1,
                ));
            }
        } else {
            if k - 1 < na + ns {
                assert(ops[k - 1] == HeaderOp::Insert(mh.set@[k - 1 - na].0@, mh.set@[k - 1 - na].1@));
            } else {
                assert(ops[k - 1] == HeaderOp::Remove(mh.remove@[k - 1 - na - ns]@));
            }
        }
    }
}

/// A name that only `add` names ends with its old values followed by the
/// added ones, in order: adding never overwrites.
pub proof fn lemma_filter_add_appends(m: HeaderEntries, mh: ModifyHeader, n: Seq<u8>)
    requires
        forall|t: int| 0 <= t < mh.set@.len() ==> (#[trigger] mh.set@[t]).0@ != n,
        forall|r: int| 0 <= r < mh.remove@.len() ==> (#[trigger] mh.remove@[r])@ != n,
    ensures
        values_of(run(m, mh.ops()), n) == values_of(m, n) + added_values(pair_views(mh.add@), n),
{
    let ops = mh.ops();
    lemma_added_prefix(m, mh, n, ops.len() as int);
    assert(ops.take(ops.len() as int) =~= ops);
    assert(pair_views(mh.add@).take(mh.add@.len() as int) =~= pair_views(mh.add@));
}

/// Each operation adds at most one name.
proof fn lemma_run_take_size(m: HeaderEntries, ops: Seq<HeaderOp>, k: int)
    requires
        m.dom().finite(),
        0 <= k <= ops.len(),
    ensures
        run(m, ops.take(k)).dom().finite(),
        run(m, ops.take(k)).dom().len() <= m.dom().len() + k,
    decreases k,
{
    if k == 0 {
        assert(ops.take(0) =~= Seq::<HeaderOp>::empty());
    } else {
        lemma_run_take_size(m, ops, k - 1);
        lemma_run_take_step(m, ops, k - 1);
        let prev = run(m, ops.take(k - 1));
        match ops[k - 1] {
            HeaderOp::Append(n, v) => {
                assert(appended(prev, n, v).dom() =~= prev.dom().insert(n));
            },
            HeaderOp::Insert(n, v) => {
                assert(prev.insert(n, seq![v]).dom() =~= prev.dom().insert(n));
            },
            HeaderOp::Remove(n) => {
                assert(prev.remove(n).dom() =~= prev.dom().remove(n));
            },
        }
    }
}

/// Running one more operation of a sequence is one more step.
proof fn lemma_run_take_step(m: HeaderEntries, ops: Seq<HeaderOp>, i: int)
    requires
        0 <= i < ops.len(),
    ensures
        run(m, ops.take(i + 1)) == step(run(m, ops.take(i)), ops[i]),
{
    assert(ops.take(i + 1).drop_last() =~= ops.take(i));
}

} // verus!
