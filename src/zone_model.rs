//! A model of a provider's zone, in which the plans of the ownership layer
//! can be run, and what running them guarantees.
//!
//! The zone holds records in the order they were added. Adding a record in
//! a zone stores it with that zone; deleting one removes every record of the
//! zone with the same name, type and value (the time-to-live is not part of
//! a record's identity). Listing a name gives the records stored under it,
//! in order.

use vstd::prelude::*;
use crate::ownership::{
    add_plan, delete_plan, has_value, missing_adds, stale_deletes, sync_plan, tracking_name_of,
    OwnedOpView, OwnershipError, RawOpView, is_first_marked, owner_prefix,
};
use crate::record::{built_record, RecordBuilderView, RecordView};

verus! {

/// Records stored in `zone` under `name`.
pub open spec fn at_name(zone: Seq<char>, name: Seq<char>) -> spec_fn(RecordView) -> bool {
    |r: RecordView| r.zone == zone && r.fqdn == name
}

/// Records of `zone` other than those that share `r`'s identity.
pub open spec fn not_same(zone: Seq<char>, r: RecordView) -> spec_fn(RecordView) -> bool {
    |s: RecordView|
        !(s.zone == zone && s.fqdn == r.fqdn && s.record_type == r.record_type && s.value
            == r.value)
}

/// What a provider lists at `name` in `zone`.
pub open spec fn listed(store: Seq<RecordView>, zone: Seq<char>, name: Seq<char>) -> Seq<
    RecordView,
> {
    store.filter(at_name(zone, name))
}

/// The zone after one single-record call.
pub open spec fn apply_raw(store: Seq<RecordView>, zone: Seq<char>, op: RawOpView) -> Seq<
    RecordView,
> {
    match op {
        RawOpView::Add(r) => store.push(RecordView { zone, ..r }),
        RawOpView::Delete(r) => store.filter(not_same(zone, r)),
    }
}

/// The zone after single-record calls made in order.
pub open spec fn apply_raws(store: Seq<RecordView>, zone: Seq<char>, ops: Seq<RawOpView>) -> Seq<
    RecordView,
>
    decreases ops.len(),
{
    if ops.len() == 0 {
        store
    } else {
        apply_raws(apply_raw(store, zone, ops[0]), zone, ops.drop_first())
    }
}

/// One ownership-aware call: list the tracking name, plan, and make the
/// planned calls; or the refusal.
pub open spec fn run_owned(store: Seq<RecordView>, zone: Seq<char>, op: OwnedOpView) -> Result<
    Seq<RecordView>,
    OwnershipError,
> {
    let plan = match op {
        OwnedOpView::Add(r) => add_plan(zone, r, listed(store, zone, tracking_name_of(r.fqdn))),
        OwnedOpView::Delete(r) => delete_plan(r, listed(store, zone, tracking_name_of(r.fqdn))),
    };
    match plan {
        Ok(raw) => Ok(apply_raws(store, zone, raw)),
        Err(e) => Err(e),
    }
}

/// Ownership-aware calls made in order, stopping at the first refusal.
pub open spec fn run_owned_all(store: Seq<RecordView>, zone: Seq<char>, ops: Seq<OwnedOpView>) -> Result<
    Seq<RecordView>,
    OwnershipError,
>
    decreases ops.len(),
{
    if ops.len() == 0 {
        Ok(store)
    } else {
        match run_owned(store, zone, ops[0]) {
            Ok(s) => run_owned_all(s, zone, ops.drop_first()),
            Err(e) => Err(e),
        }
    }
}

/// A whole reconciliation: list the builder's name, plan, and run the plan.
pub open spec fn run_sync(store: Seq<RecordView>, b: RecordBuilderView, desired: Seq<Seq<char>>) -> Result<
    Seq<RecordView>,
    OwnershipError,
> {
    run_owned_all(store, b.zone, sync_plan(b, listed(store, b.zone, b.fqdn), desired))
}

proof fn lemma_apply_two(store: Seq<RecordView>, zone: Seq<char>, a: RawOpView, b: RawOpView)
    ensures
        apply_raws(store, zone, seq![a, b]) == apply_raw(apply_raw(store, zone, a), zone, b),
{
    assert(seq![a, b].drop_first() =~= seq![b]);
    assert(seq![b].drop_first() =~= Seq::<RawOpView>::empty());
    assert(apply_raws(apply_raw(store, zone, a), zone, seq![b]) == apply_raws(
        apply_raw(apply_raw(store, zone, a), zone, b),
        zone,
        Seq::<RawOpView>::empty(),
    ));
}

/// Once a record has been added, adding any record with the same name is
/// refused, and nothing is planned for it.
pub proof fn lemma_add_twice_refused(
    store: Seq<RecordView>,
    zone: Seq<char>,
    first: RecordView,
    second: RecordView,
)
    requires
        run_owned(store, zone, OwnedOpView::Add(first)) is Ok,
        second.fqdn == first.fqdn,
    ensures
        add_plan(
            zone,
            second,
            listed(
                run_owned(store, zone, OwnedOpView::Add(first))->Ok_0,
                zone,
                tracking_name_of(second.fqdn),
            ),
        ) == Err::<Seq<RawOpView>, OwnershipError>(OwnershipError::AlreadyOwned),
{
    let tn = tracking_name_of(first.fqdn);
    let raw = add_plan(zone, first, listed(store, zone, tn))->Ok_0;
    let owner = RecordView { zone, ..raw[0]->Add_0 };
    let s1 = store.push(owner);
    let s2 = s1.push(RecordView { zone, ..first });
    lemma_apply_two(store, zone, raw[0], raw[1]);
    assert(raw == seq![raw[0], raw[1]]);
    assert(run_owned(store, zone, OwnedOpView::Add(first))->Ok_0 == s2);
    assert(s1.drop_last() == store);
    assert(s2.drop_last() == s1);
    reveal(Seq::filter);
    assert(listed(s1, zone, tn).len() > 0);
    assert(s2.filter(at_name(zone, tn)).len() >= s1.filter(at_name(zone, tn)).len());
}

proof fn lemma_filter_map_elem<A, B>(s: Seq<A>, f: spec_fn(A) -> Option<B>, j: int)
    requires
        0 <= j < s.filter_map(f).len(),
    ensures
        exists|i: int| 0 <= i < s.len() && f(s[i]) == Some(s.filter_map(f)[j]),
    decreases s.len(),
{
    let rest = s.drop_last();
    if j < rest.filter_map(f).len() {
        lemma_filter_map_elem(rest, f, j);
        let i = choose|i: int| 0 <= i < rest.len() && f(rest[i]) == Some(rest.filter_map(f)[j]);
        assert(s[i] == rest[i]);
    } else {
        assert(f(s[s.len() - 1]) == Some(s.filter_map(f)[j]));
    }
}

proof fn lemma_filter_map_has<A, B>(s: Seq<A>, f: spec_fn(A) -> Option<B>, i: int)
    requires
        0 <= i < s.len(),
        f(s[i]) is Some,
    ensures
        exists|j: int| 0 <= j < s.filter_map(f).len() && s.filter_map(f)[j] == f(s[i])->0,
    decreases s.len(),
{
    let rest = s.drop_last();
    if i < s.len() - 1 {
        assert(rest[i] == s[i]);
        lemma_filter_map_has(rest, f, i);
        let j = choose|j: int|
            0 <= j < rest.filter_map(f).len() && rest.filter_map(f)[j] == f(rest[i])->0;
        assert(s.filter_map(f)[j] == rest.filter_map(f)[j]);
    } else {
        assert(s.filter_map(f)[s.filter_map(f).len() - 1] == f(s[i])->0);
    }
}

proof fn lemma_filter_map_none<A, B>(s: Seq<A>, f: spec_fn(A) -> Option<B>)
    requires
        forall|i: int| 0 <= i < s.len() ==> f(#[trigger] s[i]) is None,
    ensures
        s.filter_map(f).len() == 0,
    decreases s.len(),
{
    if s.len() > 0 {
        let rest = s.drop_last();
        assert forall|i: int| 0 <= i < rest.len() implies f(#[trigger] rest[i]) is None by {
            assert(rest[i] == s[i]);
        }
        lemma_filter_map_none(rest, f);
        assert(f(s[s.len() - 1]) is None);
    }
}

proof fn lemma_filter_member(s: Seq<RecordView>, p: spec_fn(RecordView) -> bool, x: RecordView)
    requires
        s.filter(p).contains(x),
    ensures
        s.contains(x),
        p(x),
{
    broadcast use vstd::seq_lib::group_filter_ensures;

    s.lemma_filter_contains_rev(p, x);
    let i = choose|i: int| 0 <= i < s.filter(p).len() && s.filter(p)[i] == x;
    s.lemma_filter_pred(p, i);
}

proof fn lemma_filter_keep(s: Seq<RecordView>, p: spec_fn(RecordView) -> bool, x: RecordView)
    requires
        s.contains(x),
        p(x),
    ensures
        s.filter(p).contains(x),
{
    let i = choose|i: int| 0 <= i < s.len() && s[i] == x;
    s.lemma_filter_contains(p, i);
}

proof fn lemma_push_contains(s: Seq<RecordView>, a: RecordView, x: RecordView)
    ensures
        s.push(a).contains(x) == (s.contains(x) || x == a),
{
    if s.contains(x) {
        let i = choose|i: int| 0 <= i < s.len() && s[i] == x;
        assert(s.push(a)[i] == x);
    }
    if x == a {
        assert(s.push(a)[s.len() as int] == x);
    }
    if s.push(a).contains(x) && x != a {
        let i = choose|i: int| 0 <= i < s.push(a).len() && s.push(a)[i] == x;
        assert(s[i] == x);
    }
}

proof fn lemma_tracking_name_differs(f: Seq<char>)
    ensures
        tracking_name_of(f) != f,
{
    assert(tracking_name_of(f).len() == f.len() + owner_prefix().len());
}

/// Each planned delete is of a record at `f` with an undesired value; each
/// planned add is of a record at `f` with a desired value.
spec fn ops_fit(ops: Seq<OwnedOpView>, f: Seq<char>, desired: Seq<Seq<char>>) -> bool {
    forall|j: int|
        0 <= j < ops.len() ==> match #[trigger] ops[j] {
            OwnedOpView::Delete(r) => r.fqdn == f && !desired.contains(r.value),
            OwnedOpView::Add(r) => r.fqdn == f && desired.contains(r.value),
        }
}

spec fn deletes_like(op: OwnedOpView, x: RecordView) -> bool {
    match op {
        OwnedOpView::Delete(r) => r.fqdn == x.fqdn && r.record_type == x.record_type && r.value
            == x.value,
        OwnedOpView::Add(_) => false,
    }
}

spec fn adds_value(op: OwnedOpView, v: Seq<char>) -> bool {
    match op {
        OwnedOpView::Add(r) => r.value == v,
        OwnedOpView::Delete(_) => false,
    }
}

/// Every record at `f` holds a desired value or is still to be deleted.
spec fn only_desired_left(
    s: Seq<RecordView>,
    z: Seq<char>,
    f: Seq<char>,
    desired: Seq<Seq<char>>,
    ops: Seq<OwnedOpView>,
) -> bool {
    forall|x: RecordView|
        s.contains(x) && x.zone == z && x.fqdn == f ==> desired.contains(x.value) || exists|j: int|
            0 <= j < ops.len() && deletes_like(#[trigger] ops[j], x)
}

/// Every desired value is held at `f` or is still to be added.
spec fn desired_held(
    s: Seq<RecordView>,
    z: Seq<char>,
    f: Seq<char>,
    desired: Seq<Seq<char>>,
    ops: Seq<OwnedOpView>,
) -> bool {
    forall|v: Seq<char>|
        desired.contains(v) ==> (exists|x: RecordView|
            s.contains(x) && x.zone == z && x.fqdn == f && x.value == v) || exists|j: int|
            0 <= j < ops.len() && adds_value(#[trigger] ops[j], v)
}

proof fn lemma_run_step(
    s: Seq<RecordView>,
    z: Seq<char>,
    f: Seq<char>,
    desired: Seq<Seq<char>>,
    ops: Seq<OwnedOpView>,
)
    requires
        ops.len() > 0,
        ops_fit(ops, f, desired),
        only_desired_left(s, z, f, desired, ops),
        desired_held(s, z, f, desired, ops),
        run_owned(s, z, ops[0]) is Ok,
    ensures
        ops_fit(ops.drop_first(), f, desired),
        only_desired_left(run_owned(s, z, ops[0])->Ok_0, z, f, desired, ops.drop_first()),
        desired_held(run_owned(s, z, ops[0])->Ok_0, z, f, desired, ops.drop_first()),
{
    let rest = ops.drop_first();
    let s1 = run_owned(s, z, ops[0])->Ok_0;
    assert forall|j: int| 0 <= j < rest.len() implies match #[trigger] rest[j] {
        OwnedOpView::Delete(r) => r.fqdn == f && !desired.contains(r.value),
        OwnedOpView::Add(r) => r.fqdn == f && desired.contains(r.value),
    } by {
        assert(rest[j] == ops[j + 1]);
    }
    lemma_tracking_name_differs(f);
    match ops[0] {
        OwnedOpView::Delete(r) => {
            assert(r.fqdn == f && !desired.contains(r.value));
            let tn = tracking_name_of(r.fqdn);
            let t = listed(s, z, tn);
            let k = choose|k: int| is_first_marked(t, k);
            let tk = t[k];
            s.lemma_filter_pred(at_name(z, tn), k);
            let raw = seq![RawOpView::Delete(r), RawOpView::Delete(tk)];
            lemma_apply_two(s, z, raw[0], raw[1]);
            let mid = s.filter(not_same(z, r));
            assert(s1 == mid.filter(not_same(z, tk)));
            assert forall|x: RecordView|
                s1.contains(x) && x.zone == z && x.fqdn == f implies desired.contains(x.value)
                || exists|j: int| 0 <= j < rest.len() && deletes_like(#[trigger] rest[j], x) by {
                lemma_filter_member(mid, not_same(z, tk), x);
                lemma_filter_member(s, not_same(z, r), x);
                if !desired.contains(x.value) {
                    let j = choose|j: int| 0 <= j < ops.len() && deletes_like(#[trigger] ops[j], x);
                    assert(j != 0);
                    assert(rest[j - 1] == ops[j]);
                }
            }
            assert forall|v: Seq<char>| desired.contains(v) implies (exists|x: RecordView|
                s1.contains(x) && x.zone == z && x.fqdn == f && x.value == v) || exists|j: int|
                0 <= j < rest.len() && adds_value(#[trigger] rest[j], v) by {
                if exists|x: RecordView|
                    s.contains(x) && x.zone == z && x.fqdn == f && x.value == v {
                    let x = choose|x: RecordView|
                        s.contains(x) && x.zone == z && x.fqdn == f && x.value == v;
                    lemma_filter_keep(s, not_same(z, r), x);
                    lemma_filter_keep(mid, not_same(z, tk), x);
                } else {
                    let j = choose|j: int| 0 <= j < ops.len() && adds_value(#[trigger] ops[j], v);
                    assert(j != 0);
                    assert(rest[j - 1] == ops[j]);
                }
            }
        },
        OwnedOpView::Add(r) => {
            assert(r.fqdn == f && desired.contains(r.value));
            let tn = tracking_name_of(r.fqdn);
            let raw = add_plan(z, r, listed(s, z, tn))->Ok_0;
            lemma_apply_two(s, z, raw[0], raw[1]);
            assert(raw == seq![raw[0], raw[1]]);
            let owner = RecordView { zone: z, ..raw[0]->Add_0 };
            let added = RecordView { zone: z, ..r };
            let mid = s.push(owner);
            assert(s1 == mid.push(added));
            assert forall|x: RecordView|
                s1.contains(x) && x.zone == z && x.fqdn == f implies desired.contains(x.value)
                || exists|j: int| 0 <= j < rest.len() && deletes_like(#[trigger] rest[j], x) by {
                lemma_push_contains(mid, added, x);
                lemma_push_contains(s, owner, x);
                if x != added && !desired.contains(x.value) {
                    let j = choose|j: int| 0 <= j < ops.len() && deletes_like(#[trigger] ops[j], x);
                    assert(j != 0);
                    assert(rest[j - 1] == ops[j]);
                }
            }
            assert forall|v: Seq<char>| desired.contains(v) implies (exists|x: RecordView|
                s1.contains(x) && x.zone == z && x.fqdn == f && x.value == v) || exists|j: int|
                0 <= j < rest.len() && adds_value(#[trigger] rest[j], v) by {
                if exists|x: RecordView|
                    s.contains(x) && x.zone == z && x.fqdn == f && x.value == v {
                    let x = choose|x: RecordView|
                        s.contains(x) && x.zone == z && x.fqdn == f && x.value == v;
                    lemma_push_contains(s, owner, x);
                    lemma_push_contains(mid, added, x);
                } else {
                    let j = choose|j: int| 0 <= j < ops.len() && adds_value(#[trigger] ops[j], v);
                    if j == 0 {
                        lemma_push_contains(mid, added, added);
                    } else {
                        assert(rest[j - 1] == ops[j]);
                    }
                }
            }
        },
    }
}

proof fn lemma_run_all(
    s: Seq<RecordView>,
    z: Seq<char>,
    f: Seq<char>,
    desired: Seq<Seq<char>>,
    ops: Seq<OwnedOpView>,
)
    requires
        ops_fit(ops, f, desired),
        only_desired_left(s, z, f, desired, ops),
        desired_held(s, z, f, desired, ops),
        run_owned_all(s, z, ops) is Ok,
    ensures
        only_desired_left(run_owned_all(s, z, ops)->Ok_0, z, f, desired, Seq::empty()),
        desired_held(run_owned_all(s, z, ops)->Ok_0, z, f, desired, Seq::empty()),
    decreases ops.len(),
{
    if ops.len() == 0 {
        assert(ops == Seq::<OwnedOpView>::empty());
    } else {
        lemma_run_step(s, z, f, desired, ops);
        lemma_run_all(run_owned(s, z, ops[0])->Ok_0, z, f, desired, ops.drop_first());
    }
}

/// What a completed reconciliation leaves at the builder's name: every
/// record there holds a desired value, and every desired value is held.
proof fn lemma_sync_end_state(store: Seq<RecordView>, b: RecordBuilderView, desired: Seq<Seq<char>>)
    requires
        run_sync(store, b, desired) is Ok,
    ensures
        only_desired_left(run_sync(store, b, desired)->Ok_0, b.zone, b.fqdn, desired, Seq::empty()),
        desired_held(run_sync(store, b, desired)->Ok_0, b.zone, b.fqdn, desired, Seq::empty()),
{
    let z = b.zone;
    let f = b.fqdn;
    let remote = listed(store, z, f);
    let dels = stale_deletes(remote, desired);
    let adds = missing_adds(b, remote, desired);
    let ops = sync_plan(b, remote, desired);
    let fdel = |r: RecordView|
        if desired.contains(r.value) {
            None
        } else {
            Some(OwnedOpView::Delete(r))
        };
    let fadd = |v: Seq<char>|
        if has_value(remote, v) {
            None
        } else {
            Some(OwnedOpView::Add(built_record(b, v, 1)))
        };
    assert(dels == remote.filter_map(fdel));
    assert(adds == desired.filter_map(fadd));
    assert forall|j: int| 0 <= j < ops.len() implies match #[trigger] ops[j] {
        OwnedOpView::Delete(r) => r.fqdn == f && !desired.contains(r.value),
        OwnedOpView::Add(r) => r.fqdn == f && desired.contains(r.value),
    } by {
        if j < dels.len() {
            lemma_filter_map_elem(remote, fdel, j);
            let i = choose|i: int| 0 <= i < remote.len() && fdel(remote[i]) == Some(dels[j]);
            store.lemma_filter_pred(at_name(z, f), i);
        } else {
            lemma_filter_map_elem(desired, fadd, j - dels.len());
            let i = choose|i: int|
                0 <= i < desired.len() && fadd(desired[i]) == Some(adds[j - dels.len()]);
            assert(desired.contains(desired[i]));
        }
    }
    assert forall|x: RecordView|
        store.contains(x) && x.zone == z && x.fqdn == f implies desired.contains(x.value)
        || exists|j: int| 0 <= j < ops.len() && deletes_like(#[trigger] ops[j], x) by {
        if !desired.contains(x.value) {
            lemma_filter_keep(store, at_name(z, f), x);
            let i = choose|i: int| 0 <= i < remote.len() && remote[i] == x;
            lemma_filter_map_has(remote, fdel, i);
            let j = choose|j: int| 0 <= j < dels.len() && dels[j] == fdel(remote[i])->0;
            assert(ops[j] == dels[j]);
        }
    }
    assert forall|v: Seq<char>| desired.contains(v) implies (exists|x: RecordView|
        store.contains(x) && x.zone == z && x.fqdn == f && x.value == v) || exists|j: int|
        0 <= j < ops.len() && adds_value(#[trigger] ops[j], v) by {
        if has_value(remote, v) {
            let i = choose|i: int| 0 <= i < remote.len() && remote[i].value == v;
            assert(remote.contains(remote[i]));
            lemma_filter_member(store, at_name(z, f), remote[i]);
        } else {
            let i = choose|i: int| 0 <= i < desired.len() && desired[i] == v;
            lemma_filter_map_has(desired, fadd, i);
            let j = choose|j: int| 0 <= j < adds.len() && adds[j] == fadd(desired[i])->0;
            assert(ops[dels.len() + j] == adds[j]);
        }
    }
    lemma_run_all(store, z, f, desired, ops);
}

/// After a reconciliation towards `desired` has run to the end, the values
/// held at the builder's name are exactly the desired ones.
pub proof fn lemma_sync_reaches_desired(
    store: Seq<RecordView>,
    b: RecordBuilderView,
    desired: Seq<Seq<char>>,
)
    requires
        run_sync(store, b, desired) is Ok,
    ensures
        forall|v: Seq<char>|
            has_value(listed(run_sync(store, b, desired)->Ok_0, b.zone, b.fqdn), v)
                <==> desired.contains(v),
{
    lemma_sync_end_state(store, b, desired);
    let fin = run_sync(store, b, desired)->Ok_0;
    let remote = listed(fin, b.zone, b.fqdn);
    assert forall|v: Seq<char>| has_value(remote, v) <==> desired.contains(v) by {
        if has_value(remote, v) {
            let i = choose|i: int| 0 <= i < remote.len() && remote[i].value == v;
            assert(remote.contains(remote[i]));
            lemma_filter_member(fin, at_name(b.zone, b.fqdn), remote[i]);
        }
        if desired.contains(v) {
            let x = choose|x: RecordView|
                fin.contains(x) && x.zone == b.zone && x.fqdn == b.fqdn && x.value == v;
            lemma_filter_keep(fin, at_name(b.zone, b.fqdn), x);
            let k = choose|k: int| 0 <= k < remote.len() && remote[k] == x;
        }
    }
}

/// Once a reconciliation towards `desired` has run to the end, a second one
/// towards the same values, with nothing else changed in between, plans no
/// call at all.
pub proof fn lemma_sync_idempotent(
    store: Seq<RecordView>,
    b: RecordBuilderView,
    desired: Seq<Seq<char>>,
)
    requires
        run_sync(store, b, desired) is Ok,
    ensures
        sync_plan(b, listed(run_sync(store, b, desired)->Ok_0, b.zone, b.fqdn), desired)
            == Seq::<OwnedOpView>::empty(),
{
    lemma_sync_end_state(store, b, desired);
    let z = b.zone;
    let f = b.fqdn;
    let fin = run_sync(store, b, desired)->Ok_0;
    let remote2 = listed(fin, z, f);
    let fdel2 = |r: RecordView|
        if desired.contains(r.value) {
            None
        } else {
            Some(OwnedOpView::Delete(r))
        };
    let fadd2 = |v: Seq<char>|
        if has_value(remote2, v) {
            None
        } else {
            Some(OwnedOpView::Add(built_record(b, v, 1)))
        };
    assert forall|i: int| 0 <= i < remote2.len() implies fdel2(#[trigger] remote2[i]) is None by {
        assert(remote2.contains(remote2[i]));
        lemma_filter_member(fin, at_name(z, f), remote2[i]);
    }
    lemma_filter_map_none(remote2, fdel2);
    assert forall|i: int| 0 <= i < desired.len() implies fadd2(#[trigger] desired[i]) is None by {
        assert(desired.contains(desired[i]));
        let x = choose|x: RecordView|
            fin.contains(x) && x.zone == z && x.fqdn == f && x.value == desired[i];
        lemma_filter_keep(fin, at_name(z, f), x);
        let k = choose|k: int| 0 <= k < remote2.len() && remote2[k] == x;
        assert(has_value(remote2, desired[i]));
    }
    lemma_filter_map_none(desired, fadd2);
    assert(stale_deletes(remote2, desired) == remote2.filter_map(fdel2));
    assert(missing_adds(b, remote2, desired) == desired.filter_map(fadd2));
    assert(sync_plan(b, remote2, desired) =~= Seq::<OwnedOpView>::empty());
}

} // verus!
