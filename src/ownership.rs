//! Ownership of records through tracking records, and the plans of
//! provider calls that add, delete and reconcile owned records.
//!
//! A record at `fqdn` is owned when a TXT record `_owner.<fqdn>` holding
//! `ares` exists in its zone. The functions here decide, from what a provider
//! listed, which single-record calls to make and in which order; the caller
//! makes those calls in that order and stops at the first failure.

use vstd::prelude::*;
use crate::record::{built_record, Record, RecordBuilder, RecordBuilderView, RecordType, RecordView};
use crate::text::contains_str;

verus! {

/// The prefix of a tracking record's name.
pub open spec fn owner_prefix() -> Seq<char> {
    seq!['_', 'o', 'w', 'n', 'e', 'r', '.']
}

/// The value that a tracking record holds.
pub open spec fn owner_marker() -> Seq<char> {
    seq!['a', 'r', 'e', 's']
}

/// The name of the tracking record of `fqdn`.
pub open spec fn tracking_name_of(fqdn: Seq<char>) -> Seq<char> {
    owner_prefix() + fqdn
}

/// The tracking record that marks `fqdn` as owned in `zone`.
pub open spec fn tracking_record_of(zone: Seq<char>, fqdn: Seq<char>) -> RecordView {
    RecordView {
        fqdn: tracking_name_of(fqdn),
        zone,
        record_type: RecordType::TXT,
        ttl: 1,
        value: owner_marker(),
    }
}

/// A single-record call to a provider, without ownership semantics.
#[derive(Debug)]
pub enum RawOp {
    Add(Record),
    Delete(Record),
}

/// An ownership-aware call: add or delete a record together with its
/// tracking record.
#[derive(Debug)]
pub enum OwnedOp {
    Add(Record),
    Delete(Record),
}

/// Why an ownership-aware call was refused.
#[derive(Clone, Copy, Debug, PartialEq, Eq, Structural)]
pub enum OwnershipError {
    /// A tracking record already exists: the name may belong to someone else.
    AlreadyOwned,
    /// No tracking record marks the record as ours.
    NotOwned,
}

pub enum RawOpView {
    Add(RecordView),
    Delete(RecordView),
}

pub enum OwnedOpView {
    Add(RecordView),
    Delete(RecordView),
}

impl View for RawOp {
    type V = RawOpView;

    open spec fn view(&self) -> RawOpView {
        match self {
            RawOp::Add(r) => RawOpView::Add(r@),
            RawOp::Delete(r) => RawOpView::Delete(r@),
        }
    }
}

impl View for OwnedOp {
    type V = OwnedOpView;

    open spec fn view(&self) -> OwnedOpView {
        match self {
            OwnedOp::Add(r) => OwnedOpView::Add(r@),
            OwnedOp::Delete(r) => OwnedOpView::Delete(r@),
        }
    }
}

pub open spec fn record_views(rs: Seq<Record>) -> Seq<RecordView> {
    rs.map_values(|r: Record| r@)
}

pub open spec fn raw_views(ops: Seq<RawOp>) -> Seq<RawOpView> {
    ops.map_values(|o: RawOp| o@)
}

pub open spec fn owned_views(ops: Seq<OwnedOp>) -> Seq<OwnedOpView> {
    ops.map_values(|o: OwnedOp| o@)
}

/// A planned list of calls, or the refusal, with records as views.
pub open spec fn plan_view(r: Result<Vec<RawOp>, OwnershipError>) -> Result<
    Seq<RawOpView>,
    OwnershipError,
> {
    match r {
        Ok(ops) => Ok(raw_views(ops@)),
        Err(e) => Err(e),
    }
}

/// The calls that add `record` in `zone`, given the records listed at its
/// tracking name: refused if any exists, else the tracking record first,
/// then the record.
pub open spec fn add_plan(zone: Seq<char>, record: RecordView, tracking: Seq<RecordView>) -> Result<
    Seq<RawOpView>,
    OwnershipError,
> {
    if tracking.len() > 0 {
        Err(OwnershipError::AlreadyOwned)
    } else {
        Ok(seq![RawOpView::Add(tracking_record_of(zone, record.fqdn)), RawOpView::Add(record)])
    }
}

/// `k` is the first position in `tracking` of a record holding the marker.
pub open spec fn is_first_marked(tracking: Seq<RecordView>, k: int) -> bool {
    &&& 0 <= k < tracking.len()
    &&& tracking[k].value == owner_marker()
    &&& forall|j: int| 0 <= j < k ==> tracking[j].value != owner_marker()
}

/// The calls that delete `record`, given the records listed at its tracking
/// name: refused unless one holds the marker, else the record first, then
/// the first tracking record that holds the marker.
pub open spec fn delete_plan(record: RecordView, tracking: Seq<RecordView>) -> Result<
    Seq<RawOpView>,
    OwnershipError,
> {
    if exists|k: int| is_first_marked(tracking, k) {
        let k = choose|k: int| is_first_marked(tracking, k);
        Ok(seq![RawOpView::Delete(record), RawOpView::Delete(tracking[k])])
    } else {
        Err(OwnershipError::NotOwned)
    }
}

/// A delete for each record of `remote` whose value is not desired, in the
/// order listed.
pub open spec fn stale_deletes(remote: Seq<RecordView>, desired: Seq<Seq<char>>) -> Seq<
    OwnedOpView,
> {
    remote.filter_map(
        |r: RecordView|
            if desired.contains(r.value) {
                None
            } else {
                Some(OwnedOpView::Delete(r))
            },
    )
}

/// Some record of `remote` holds `v`.
pub open spec fn has_value(remote: Seq<RecordView>, v: Seq<char>) -> bool {
    exists|i: int| 0 <= i < remote.len() && remote[i].value == v
}

/// An add for each value of `values` that no record of `remote` holds, in
/// the order given, built from `b` with time-to-live 1.
pub open spec fn missing_adds(
    b: RecordBuilderView,
    remote: Seq<RecordView>,
    values: Seq<Seq<char>>,
) -> Seq<OwnedOpView> {
    values.filter_map(
        |v: Seq<char>|
            if has_value(remote, v) {
                None
            } else {
                Some(OwnedOpView::Add(built_record(b, v, 1)))
            },
    )
}

/// The ownership-aware calls that make the records at the builder's name
/// hold exactly the `desired` values: the stale deletes, then the missing
/// adds.
pub open spec fn sync_plan(
    b: RecordBuilderView,
    remote: Seq<RecordView>,
    desired: Seq<Seq<char>>,
) -> Seq<OwnedOpView> {
    stale_deletes(remote, desired) + missing_adds(b, remote, desired)
}

/// The name of the tracking record of `fqdn`.
pub fn tracking_name(fqdn: &String) -> (r: String)
    ensures
        r@ == tracking_name_of(fqdn@),
{
    let mut r = "_owner.".to_owned();
    proof {
        reveal_strlit("_owner.");
    }
    r.push_str(fqdn.as_str());
    r
}

/// The calls that add `record` in `zone`, given the records that the
/// provider listed at `tracking_name(&record.fqdn)` in `zone`.
pub fn plan_add(zone: &String, record: &Record, tracking: &Vec<Record>) -> (r: Result<
    Vec<RawOp>,
    OwnershipError,
>)
    ensures
        plan_view(r) == add_plan(zone@, record@, record_views(tracking@)),
{
    if tracking.len() > 0 {
        return Err(OwnershipError::AlreadyOwned);
    }
    let marker = "ares".to_owned();
    proof {
        reveal_strlit("ares");
    }
    assert(marker@ == owner_marker());
    let owner = Record::new(zone.clone(), tracking_name(&record.fqdn), 1, RecordType::TXT, marker);
    assert(owner@ == tracking_record_of(zone@, record@.fqdn));
    let ops = vec![RawOp::Add(owner), RawOp::Add(record.duplicate())];
    assert(raw_views(ops@) =~= seq![
        RawOpView::Add(tracking_record_of(zone@, record@.fqdn)),
        RawOpView::Add(record@),
    ]);
    Ok(ops)
}

/// The calls that delete `record` in `zone`, given the records that the
/// provider listed at `tracking_name(&record.fqdn)` in `zone`.
pub fn plan_delete(record: &Record, tracking: &Vec<Record>) -> (r: Result<
    Vec<RawOp>,
    OwnershipError,
>)
    ensures
        plan_view(r) == delete_plan(record@, record_views(tracking@)),
{
    let ghost tv = record_views(tracking@);
    let marker = "ares".to_owned();
    proof {
        reveal_strlit("ares");
    }
    let mut i: usize = 0;
    while i < tracking.len()
        invariant
            i <= tracking@.len(),
            tv == record_views(tracking@),
            marker@ == owner_marker(),
            forall|j: int| 0 <= j < i ==> tv[j].value != owner_marker(),
        decreases tracking@.len() - i,
    {
        if tracking[i].value == marker {
            assert(is_first_marked(tv, i as int));
            assert forall|k: int| is_first_marked(tv, k) implies k == i by {
                if k < i {
                } else if k > i {
                    assert(tv[i as int].value == owner_marker());
                }
            }
            let ops = vec![RawOp::Delete(record.duplicate()), RawOp::Delete(tracking[i].duplicate())];
            assert(raw_views(ops@) =~= seq![RawOpView::Delete(record@), RawOpView::Delete(tv[i as int])]);
            return Ok(ops);
        }
        i = i + 1;
    }
    Err(OwnershipError::NotOwned)
}

/// Whether one of the records of `remote` holds `v`.
fn holds_value(remote: &Vec<Record>, v: &String) -> (r: bool)
    ensures
        r == has_value(record_views(remote@), v@),
{
    let mut i: usize = 0;
    while i < remote.len()
        invariant
            i <= remote@.len(),
            forall|k: int| 0 <= k < i ==> remote@[k].value@ != v@,
        decreases remote@.len() - i,
    {
        if remote[i].value == *v {
            assert(record_views(remote@)[i as int].value == v@);
            return true;
        }
        i = i + 1;
    }
    assert forall|k: int| 0 <= k < record_views(remote@).len() implies record_views(
        remote@,
    )[k].value != v@ by {
        assert(record_views(remote@)[k] == remote@[k]@);
    }
    false
}

/// The ownership-aware calls that make the records at `builder.fqdn` hold
/// exactly the values of `desired`, given the records that the provider
/// listed there in `builder.zone`.
pub fn plan_sync(builder: &RecordBuilder, remote: &Vec<Record>, desired: &Vec<String>) -> (r: Vec<
    OwnedOp,
>)
    ensures
        owned_views(r@) == sync_plan(builder@, record_views(remote@), desired.deep_view()),
{
    let ghost rv = record_views(remote@);
    let ghost dv = desired.deep_view();
    let mut ops: Vec<OwnedOp> = Vec::new();
    let mut i: usize = 0;
    while i < remote.len()
        invariant
            i <= remote@.len(),
            rv == record_views(remote@),
            dv == desired.deep_view(),
            owned_views(ops@) == stale_deletes(rv.take(i as int), dv),
        decreases remote@.len() - i,
    {
        assert(rv.take(i + 1).drop_last() == rv.take(i as int));
        if !contains_str(desired, &remote[i].value) {
            ops.push(OwnedOp::Delete(remote[i].duplicate()));
        }
        assert(owned_views(ops@) =~= stale_deletes(rv.take(i + 1), dv));
        i = i + 1;
    }
    assert(rv.take(rv.len() as int) == rv);
    let ghost deletes = owned_views(ops@);
    let mut j: usize = 0;
    while j < desired.len()
        invariant
            j <= desired@.len(),
            rv == record_views(remote@),
            dv == desired.deep_view(),
            deletes == stale_deletes(rv, dv),
            owned_views(ops@) == deletes + missing_adds(builder@, rv, dv.take(j as int)),
        decreases desired@.len() - j,
    {
        assert(dv.take(j + 1).drop_last() == dv.take(j as int));
        assert(dv[j as int] == desired@[j as int]@);
        let ghost before = owned_views(ops@);
        assert(dv.take(j + 1).last() == dv[j as int]);
        if !holds_value(remote, &desired[j]) {
            let rec = builder.build_with(&desired[j], 1);
            ops.push(OwnedOp::Add(rec));
            assert(missing_adds(builder@, rv, dv.take(j + 1)) == missing_adds(
                builder@,
                rv,
                dv.take(j as int),
            ) + seq![OwnedOpView::Add(built_record(builder@, dv[j as int], 1))]);
            assert(owned_views(ops@) =~= before.push(OwnedOpView::Add(rec@)));
        } else {
            assert(missing_adds(builder@, rv, dv.take(j + 1)) == missing_adds(
                builder@,
                rv,
                dv.take(j as int),
            ));
        }
        assert(owned_views(ops@) =~= deletes + missing_adds(builder@, rv, dv.take(j + 1)));
        j = j + 1;
    }
    assert(dv.take(dv.len() as int) == dv);
    ops
}

} // verus!
